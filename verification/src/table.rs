//! The page store: rows kept in fixed-size pages, appended at the tail, up to a
//! fixed ceiling.

use vstd::prelude::*;
use vstd::arithmetic::div_mod::{
    lemma_div_is_ordered, lemma_div_pos_is_pos, lemma_fundamental_div_mod,
    lemma_fundamental_div_mod_converse_div, lemma_fundamental_div_mod_converse_mod,
    lemma_mod_pos_bound,
};
use crate::row::{row_views, Row, RowView};

verus! {

/// Bytes in one page.
pub const PAGE_SIZE: usize = 40;

/// Bytes of a row id, the unit by which a page is divided into slots.
pub const ID_SIZE: usize = 4;

/// Slots in one page.
pub const ROWS_PER_PAGE: usize = PAGE_SIZE / ID_SIZE;

/// Pages that a table may hold.
pub const TABLE_MAX_PAGES: usize = 10;

/// Rows that a table may hold.
pub const TABLE_MAX_ROWS: usize = ROWS_PER_PAGE * TABLE_MAX_PAGES;

/// The name of a table that was given none.
pub const DEFAULT_TABLE_NAME: &'static str = "fct";

/// The page that holds the row with the given number.
pub open spec fn page_index(row_number: int) -> int {
    row_number / (ROWS_PER_PAGE as int)
}

/// The slot, within its page, of the row with the given number.
pub open spec fn slot_index(row_number: int) -> int {
    row_number % (ROWS_PER_PAGE as int)
}

/// The pages that `num_rows` rows occupy: a page exists once a row addresses it.
pub open spec fn pages_in_use(num_rows: int) -> int {
    (num_rows + ROWS_PER_PAGE - 1) / (ROWS_PER_PAGE as int)
}

/// The rows in page `page` of a table of `num_rows` rows: every page but the last
/// is full.
pub open spec fn rows_in_page(num_rows: int, page: int) -> int {
    if (page + 1) * ROWS_PER_PAGE <= num_rows {
        ROWS_PER_PAGE as int
    } else {
        num_rows - page * ROWS_PER_PAGE
    }
}

/// Division with remainder by a page's capacity, and how rounding up relates to it.
proof fn lemma_paging(n: int)
    requires
        0 <= n,
    ensures
        n == page_index(n) * ROWS_PER_PAGE + slot_index(n),
        0 <= slot_index(n) < ROWS_PER_PAGE,
        0 <= page_index(n),
        pages_in_use(n) == if slot_index(n) == 0 {
            page_index(n)
        } else {
            page_index(n) + 1
        },
{
    let d = ROWS_PER_PAGE as int;
    let q = n / d;
    let r = n % d;
    lemma_fundamental_div_mod(n, d);
    lemma_mod_pos_bound(n, d);
    lemma_div_pos_is_pos(n, d);
    assert(d * q == q * d) by (nonlinear_arith);
    if r == 0 {
        lemma_fundamental_div_mod_converse_div(n + d - 1, d, q, d - 1);
    } else {
        assert((q + 1) * d == q * d + d) by (nonlinear_arith);
        lemma_fundamental_div_mod_converse_div(n + d - 1, d, q + 1, r - 1);
    }
}

/// A table within the row ceiling is within the page ceiling.
pub proof fn lemma_page_count_bound(num_rows: int)
    requires
        0 <= num_rows <= TABLE_MAX_ROWS,
    ensures
        0 <= pages_in_use(num_rows) <= TABLE_MAX_PAGES,
{
    let d = ROWS_PER_PAGE as int;
    lemma_paging(num_rows);
    let q = page_index(num_rows);
    if q >= TABLE_MAX_PAGES {
        assert(q * d >= TABLE_MAX_PAGES * d) by (nonlinear_arith)
            requires
                q >= TABLE_MAX_PAGES,
                0 < d,
        ;
        assert(TABLE_MAX_PAGES * d == d * TABLE_MAX_PAGES) by (nonlinear_arith);
    }
}

/// Every row of a table lies in a page that exists, in a slot that is filled.
pub proof fn lemma_row_is_stored(num_rows: int, row_number: int)
    requires
        0 <= row_number < num_rows,
    ensures
        0 <= page_index(row_number) < pages_in_use(num_rows),
        0 <= slot_index(row_number) < rows_in_page(num_rows, page_index(row_number)),
{
    let d = ROWS_PER_PAGE as int;
    lemma_paging(num_rows);
    lemma_paging(row_number);
    let p = page_index(row_number);
    let q = page_index(num_rows);
    assert(p <= q) by {
        lemma_div_is_ordered(row_number, num_rows, d);
    }
    if p == q {
        assert(slot_index(row_number) < slot_index(num_rows));
    } else {
        assert((p + 1) * d <= q * d) by (nonlinear_arith)
            requires
                p + 1 <= q,
                0 < d,
        ;
    }
    assert((p + 1) * d == p * d + d) by (nonlinear_arith);
}

/// How the layout changes when one row is appended to `num_rows` rows: the new
/// row opens a page exactly when the last one is full, it takes the next free
/// slot of the last page, and no other page changes.
proof fn lemma_append_layout(num_rows: int)
    requires
        0 <= num_rows,
    ensures
        pages_in_use(num_rows + 1) == page_index(num_rows) + 1,
        pages_in_use(num_rows) == if slot_index(num_rows) == 0 {
            page_index(num_rows)
        } else {
            page_index(num_rows) + 1
        },
        rows_in_page(num_rows, page_index(num_rows)) == slot_index(num_rows),
        rows_in_page(num_rows + 1, page_index(num_rows)) == slot_index(num_rows) + 1,
        forall|p: int|
            0 <= p < page_index(num_rows) ==> #[trigger] rows_in_page(num_rows + 1, p)
                == rows_in_page(num_rows, p),
{
    let d = ROWS_PER_PAGE as int;
    let q = page_index(num_rows);
    let r = slot_index(num_rows);
    lemma_paging(num_rows);
    lemma_paging(num_rows + 1);
    assert((q + 1) * d == q * d + d) by (nonlinear_arith);
    if r + 1 < d {
        lemma_fundamental_div_mod_converse_div(num_rows + 1, d, q, r + 1);
        lemma_fundamental_div_mod_converse_mod(num_rows + 1, d, q, r + 1);
    } else {
        lemma_fundamental_div_mod_converse_div(num_rows + 1, d, q + 1, 0);
        lemma_fundamental_div_mod_converse_mod(num_rows + 1, d, q + 1, 0);
    }
    assert forall|p: int| 0 <= p < q implies #[trigger] rows_in_page(num_rows + 1, p)
        == rows_in_page(num_rows, p) by {
        assert((p + 1) * d <= q * d) by (nonlinear_arith)
            requires
                p + 1 <= q,
                0 < d,
        ;
    }
}

/// Computes [`page_index`].
pub fn page_of(row_number: usize) -> (page: usize)
    ensures
        page == page_index(row_number as int),
{
    row_number / ROWS_PER_PAGE
}

/// Computes [`slot_index`].
pub fn slot_of_row(row_number: usize) -> (slot: usize)
    ensures
        slot == slot_index(row_number as int),
{
    row_number % ROWS_PER_PAGE
}

/// A fixed-capacity run of row slots, filled from the front.
#[derive(Debug)]
struct Page {
    rows: Vec<Row>,
}

/// The append was refused: the table already holds [`TABLE_MAX_ROWS`] rows.
#[derive(Debug, PartialEq, Eq, Structural)]
pub struct CapacityError;

/// What a [`Table`] is in contracts: its name and its rows in insertion order.
pub struct TableView {
    pub name: Seq<char>,
    pub rows: Seq<RowView>,
}

/// A table of rows. It owns its pages and rows; rows are only ever appended at
/// the tail or discarded all at once.
#[derive(Debug)]
pub struct Table {
    name: String,
    num_rows: usize,
    pages: Vec<Page>,
}

impl View for Table {
    type V = TableView;

    closed spec fn view(&self) -> TableView {
        TableView {
            name: self.name@,
            rows: Seq::new(
                self.num_rows as nat,
                |i: int| self.pages[page_index(i)].rows[slot_index(i)]@,
            ),
        }
    }
}

impl Table {
    /// The table's invariant: the row count is within the ceiling, exactly the
    /// pages that the rows address exist, and each holds the rows that fall in it.
    pub closed spec fn wf(&self) -> bool {
        &&& self.num_rows <= TABLE_MAX_ROWS
        &&& self.pages.len() == pages_in_use(self.num_rows as int)
        &&& forall|p: int|
            0 <= p < self.pages.len() ==> (#[trigger] self.pages[p]).rows.len() == rows_in_page(
                self.num_rows as int,
                p,
            )
    }

    /// An invariant of every table: it never holds more than the ceiling.
    pub proof fn lemma_within_capacity(&self)
        requires
            self.wf(),
        ensures
            self@.rows.len() <= TABLE_MAX_ROWS,
    {
    }

    /// An empty table with the given name, or with [`DEFAULT_TABLE_NAME`].
    pub fn new(name: Option<String>) -> (table: Table)
        ensures
            table.wf(),
            table@.rows == Seq::<RowView>::empty(),
            table@.name == match name {
                Some(n) => n@,
                None => DEFAULT_TABLE_NAME@,
            },
    {
        let name = match name {
            Some(n) => n,
            None => DEFAULT_TABLE_NAME.to_owned(),
        };
        Table { name, num_rows: 0, pages: Vec::new() }
    }

    /// The table's name.
    pub fn name(&self) -> (name: &str)
        ensures
            name@ == self@.name,
    {
        self.name.as_str()
    }

    /// The number of rows in the table.
    pub fn num_rows(&self) -> (n: usize)
        ensures
            n == self@.rows.len(),
    {
        self.num_rows
    }

    /// The number of pages that the table has allocated: exactly those that its
    /// rows address, never one ahead.
    pub fn page_count(&self) -> (n: usize)
        requires
            self.wf(),
        ensures
            n == pages_in_use(self@.rows.len() as int),
            n <= TABLE_MAX_PAGES,
    {
        proof {
            lemma_page_count_bound(self.num_rows as int);
        }
        self.pages.len()
    }

    /// Whether the table holds as many rows as it may.
    pub fn is_full(&self) -> (full: bool)
        requires
            self.wf(),
        ensures
            full == (self@.rows.len() == TABLE_MAX_ROWS),
    {
        self.num_rows == TABLE_MAX_ROWS
    }

    /// The row with the given number. Only the rows that were inserted can be
    /// addressed.
    pub fn slot_of(&self, row_number: usize) -> (row: &Row)
        requires
            self.wf(),
            row_number < self@.rows.len(),
        ensures
            row@ == self@.rows[row_number as int],
    {
        let page = page_of(row_number);
        let slot = slot_of_row(row_number);
        proof {
            lemma_row_is_stored(self.num_rows as int, row_number as int);
        }
        &self.pages[page].rows[slot]
    }

    /// Appends `row` at the tail, unless the table is full.
    pub fn append(&mut self, row: Row) -> (r: Result<(), CapacityError>)
        requires
            old(self).wf(),
        ensures
            final(self).wf(),
            old(self)@.rows.len() == TABLE_MAX_ROWS ==> r is Err && *final(self) == *old(self),
            old(self)@.rows.len() < TABLE_MAX_ROWS ==> r is Ok && final(self)@ == (TableView {
                name: old(self)@.name,
                rows: old(self)@.rows.push(row@),
            }),
    {
        if self.num_rows >= TABLE_MAX_ROWS {
            return Err(CapacityError);
        }
        let page = page_of(self.num_rows);
        let slot = slot_of_row(self.num_rows);
        proof {
            lemma_append_layout(self.num_rows as int);
        }
        if page >= self.pages.len() {
            self.pages.push(Page { rows: Vec::new() });
        }
        let mut last = self.pages.pop().unwrap();
        assert(self.pages.len() == page && last.rows.len() == slot);
        last.rows.push(row);
        self.pages.push(last);
        self.num_rows = self.num_rows + 1;
        assert(self@.rows =~= old(self)@.rows.push(row@));
        Ok(())
    }

    /// Discards every row. The name stays.
    pub fn truncate(&mut self)
        requires
            old(self).wf(),
        ensures
            final(self).wf(),
            final(self)@ == (TableView { name: old(self)@.name, rows: Seq::empty() }),
    {
        self.pages.clear();
        self.num_rows = 0;
        assert(self@.rows =~= Seq::<RowView>::empty());
    }

    /// A copy of every row, in insertion order. The table is not changed, and
    /// the listing can be made again at any time.
    pub fn select(&self) -> (rows: Vec<Row>)
        requires
            self.wf(),
        ensures
            row_views(rows@) == self@.rows,
    {
        let mut rows: Vec<Row> = Vec::new();
        let mut i: usize = 0;
        while i < self.num_rows
            invariant
                self.wf(),
                i <= self.num_rows,
                row_views(rows@) == self@.rows.take(i as int),
            decreases self.num_rows - i,
        {
            let row = self.slot_of(i).clone();
            assert(row_views(rows@.push(row)) == row_views(rows@).push(row@));
            rows.push(row);
            i += 1;
        }
        assert(self@.rows.take(i as int) == self@.rows);
        rows
    }
}

} // verus!

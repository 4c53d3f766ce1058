use rowstore::row::Row;
use rowstore::table::{
    page_of, slot_of_row, CapacityError, Table, DEFAULT_TABLE_NAME, ID_SIZE, PAGE_SIZE,
    ROWS_PER_PAGE, TABLE_MAX_PAGES, TABLE_MAX_ROWS,
};

fn numbered(i: usize) -> Row {
    Row::new(i as u32, &format!("user{}", i), &format!("user{}@x.com", i))
}

#[test]
fn ceilings() {
    assert_eq!(ROWS_PER_PAGE, PAGE_SIZE / ID_SIZE);
    assert_eq!(TABLE_MAX_ROWS, ROWS_PER_PAGE * TABLE_MAX_PAGES);
    assert_eq!(TABLE_MAX_ROWS, 100);
}

#[test]
fn new_table_is_empty_and_named() {
    let table = Table::new(None);
    assert_eq!(table.name(), "fct");
    assert_eq!(table.name(), DEFAULT_TABLE_NAME);
    assert_eq!(table.num_rows(), 0);
    assert_eq!(table.page_count(), 0);
    assert!(!table.is_full());
    assert_eq!(table.select(), vec![]);
    let named = Table::new(Some("people".to_owned()));
    assert_eq!(named.name(), "people");
    assert_eq!(named.num_rows(), 0);
}

#[test]
fn addressing() {
    assert_eq!(page_of(0), 0);
    assert_eq!(slot_of_row(0), 0);
    assert_eq!(page_of(ROWS_PER_PAGE - 1), 0);
    assert_eq!(slot_of_row(ROWS_PER_PAGE - 1), ROWS_PER_PAGE - 1);
    assert_eq!(page_of(ROWS_PER_PAGE), 1);
    assert_eq!(slot_of_row(ROWS_PER_PAGE), 0);
    assert_eq!(page_of(37), 37 / ROWS_PER_PAGE);
    assert_eq!(slot_of_row(37), 37 % ROWS_PER_PAGE);
    assert_eq!(page_of(37), 3);
    assert_eq!(slot_of_row(37), 7);
}

#[test]
fn exactly_the_ceiling_fits() {
    let mut table = Table::new(None);
    for i in 0..TABLE_MAX_ROWS {
        assert!(!table.is_full());
        assert_eq!(table.append(numbered(i)), Ok(()));
        assert_eq!(table.num_rows(), i + 1);
    }
    assert!(table.is_full());
    assert_eq!(table.append(numbered(TABLE_MAX_ROWS)), Err(CapacityError));
    assert_eq!(table.num_rows(), TABLE_MAX_ROWS);
    assert_eq!(table.append(numbered(TABLE_MAX_ROWS)), Err(CapacityError));
    assert_eq!(table.num_rows(), TABLE_MAX_ROWS);
    for i in 0..TABLE_MAX_ROWS {
        assert_eq!(table.slot_of(i), &numbered(i));
    }
}

#[test]
fn pages_are_allocated_when_a_row_addresses_them() {
    let mut table = Table::new(None);
    for i in 0..TABLE_MAX_ROWS {
        assert_eq!(table.page_count(), (i + ROWS_PER_PAGE - 1) / ROWS_PER_PAGE);
        table.append(numbered(i)).unwrap();
        assert_eq!(table.page_count(), i / ROWS_PER_PAGE + 1);
    }
    assert_eq!(table.page_count(), TABLE_MAX_PAGES);
}

#[test]
fn select_after_inserts_lists_them_in_order() {
    for n in [0usize, 1, ROWS_PER_PAGE - 1, ROWS_PER_PAGE, ROWS_PER_PAGE + 1, TABLE_MAX_ROWS].iter() {
        let mut table = Table::new(None);
        let rows: Vec<Row> = (0..*n).map(numbered).collect();
        for row in rows.iter() {
            table.append(row.clone()).unwrap();
        }
        assert_eq!(table.num_rows(), *n);
        assert_eq!(table.select(), rows);
        assert_eq!(table.select(), rows);
    }
}

#[test]
fn duplicate_ids_are_accepted() {
    let mut table = Table::new(None);
    table.append(Row::new(1, "a", "a@x.com")).unwrap();
    table.append(Row::new(1, "b", "b@x.com")).unwrap();
    assert_eq!(table.select(), vec![Row::new(1, "a", "a@x.com"), Row::new(1, "b", "b@x.com")]);
}

#[test]
fn truncate_empties_the_table_and_keeps_the_name() {
    let mut table = Table::new(Some("people".to_owned()));
    for i in 0..(ROWS_PER_PAGE + 3) {
        table.append(numbered(i)).unwrap();
    }
    table.truncate();
    assert_eq!(table.num_rows(), 0);
    assert_eq!(table.page_count(), 0);
    assert_eq!(table.select(), vec![]);
    assert_eq!(table.name(), "people");
    table.append(numbered(5)).unwrap();
    assert_eq!(table.select(), vec![numbered(5)]);
}

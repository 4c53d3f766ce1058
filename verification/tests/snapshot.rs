use rowstore::command::{handle_valid_input, Outcome};
use rowstore::row::Row;
use rowstore::snapshot::{db_open, SerializationError};
use rowstore::table::{Table, TABLE_MAX_ROWS};

fn le64(n: u64) -> Vec<u8> {
    n.to_le_bytes().to_vec()
}

fn text(s: &str) -> Vec<u8> {
    let mut bytes = le64(s.len() as u64);
    bytes.extend_from_slice(s.as_bytes());
    bytes
}

fn row(id: u32, username: &str, email: &str) -> Vec<u8> {
    let mut bytes = id.to_le_bytes().to_vec();
    bytes.extend(text(username));
    bytes.extend(text(email));
    bytes
}

fn image(name: &str, num_rows: u64, rows: &[Vec<u8>]) -> Vec<u8> {
    let mut bytes = text(name);
    bytes.extend(le64(num_rows));
    bytes.extend(le64(rows.len() as u64));
    for r in rows.iter() {
        bytes.extend_from_slice(r);
    }
    bytes
}

#[test]
fn snapshot_after_inserts_reloads_to_the_same_table() {
    let mut table = Table::new(None);
    handle_valid_input("insert 1 alice a@x.com", &mut table).unwrap();
    handle_valid_input("insert 2 bob b@x.com", &mut table).unwrap();
    handle_valid_input("insert 2 \u{e9}ve \u{65e5}\u{672c}@x.com", &mut table).unwrap();
    assert_eq!(handle_valid_input(".exit", &mut table), Ok(Outcome::Exit));
    let bytes = table.db_close();
    let reloaded = db_open("fct", &bytes).unwrap();
    assert_eq!(reloaded.name(), table.name());
    assert_eq!(reloaded.num_rows(), 3);
    assert_eq!(reloaded.select(), table.select());
    assert_eq!(
        reloaded.select(),
        vec![
            Row::new(1, "alice", "a@x.com"),
            Row::new(2, "bob", "b@x.com"),
            Row::new(2, "\u{e9}ve", "\u{65e5}\u{672c}@x.com"),
        ]
    );
}

#[test]
fn snapshot_of_a_full_table_reloads() {
    let mut table = Table::new(Some("full".to_owned()));
    for i in 0..TABLE_MAX_ROWS {
        table.append(Row::new(i as u32, "u", "e")).unwrap();
    }
    let reloaded = db_open("full", &table.db_close()).unwrap();
    assert_eq!(reloaded.name(), "full");
    assert_eq!(reloaded.num_rows(), TABLE_MAX_ROWS);
    assert_eq!(reloaded.select(), table.select());
    assert_eq!(reloaded.page_count(), table.page_count());
}

#[test]
fn snapshot_layout() {
    let mut table = Table::new(None);
    assert_eq!(table.db_close(), image("fct", 0, &[]));
    table.append(Row::new(1, "alice", "a@x.com")).unwrap();
    table.append(Row::new(0x01020304, "bob", "")).unwrap();
    assert_eq!(
        table.db_close(),
        image("fct", 2, &[row(1, "alice", "a@x.com"), row(0x01020304, "bob", "")])
    );
    let bytes = table.db_close();
    assert_eq!(&bytes[0..11], &[3, 0, 0, 0, 0, 0, 0, 0, b'f', b'c', b't']);
    assert_eq!(&bytes[11..19], &[2, 0, 0, 0, 0, 0, 0, 0]);
    assert_eq!(&bytes[19..27], &[2, 0, 0, 0, 0, 0, 0, 0]);
    assert_eq!(&bytes[27..31], &[1, 0, 0, 0]);
}

#[test]
fn to_parts_and_from_parts() {
    let mut table = Table::new(Some("people".to_owned()));
    table.append(Row::new(1, "alice", "a@x.com")).unwrap();
    table.append(Row::new(2, "bob", "b@x.com")).unwrap();
    let parts = table.to_parts();
    assert_eq!(
        parts,
        (
            "people".to_owned(),
            2,
            vec![
                (1, "alice".to_owned(), "a@x.com".to_owned()),
                (2, "bob".to_owned(), "b@x.com".to_owned()),
            ]
        )
    );
    let back = Table::from_parts(parts).unwrap();
    assert_eq!(back.name(), "people");
    assert_eq!(back.select(), table.select());
}

#[test]
fn empty_file_gives_a_fresh_table_named_after_the_file() {
    let table = db_open("users", &[]).unwrap();
    assert_eq!(table.name(), "users");
    assert_eq!(table.num_rows(), 0);
    assert_eq!(table.select(), vec![]);
    let table = db_open("fct", &[]).unwrap();
    assert_eq!(table.name(), "fct");
    assert_eq!(table.num_rows(), 0);
}

#[test]
fn table_of_an_empty_file_is_saved_under_the_name_of_that_file() {
    let mut table = db_open("users", &[]).unwrap();
    table.append(Row::new(1, "alice", "a@x.com")).unwrap();
    let bytes = table.db_close();
    assert_eq!(bytes, image("users", 1, &[row(1, "alice", "a@x.com")]));
    let reloaded = db_open("users", &bytes).unwrap();
    assert_eq!(reloaded.name(), "users");
    assert_eq!(reloaded.select(), table.select());
}

#[test]
fn snapshot_keeps_its_own_name_whatever_file_it_is_read_from() {
    let bytes = image("people", 0, &[]);
    let table = db_open("elsewhere", &bytes).unwrap();
    assert_eq!(table.name(), "people");
    assert_eq!(table.num_rows(), 0);
}

#[test]
fn snapshot_is_read_from_its_bytes() {
    let bytes = image("people", 1, &[row(9, "zed", "z@x.com")]);
    let table = db_open("people", &bytes).unwrap();
    assert_eq!(table.name(), "people");
    assert_eq!(table.select(), vec![Row::new(9, "zed", "z@x.com")]);
}

#[test]
fn bytes_after_the_snapshot_are_ignored() {
    let mut bytes = image("people", 1, &[row(9, "zed", "z@x.com")]);
    bytes.extend_from_slice(&[0xff, 0, 1, 2, 3]);
    let table = db_open("people", &bytes).unwrap();
    assert_eq!(table.name(), "people");
    assert_eq!(table.select(), vec![Row::new(9, "zed", "z@x.com")]);
}

#[test]
fn snapshot_holds_rows_in_the_layout_of_the_row_codec() {
    let mut table = Table::new(Some("t".to_owned()));
    let rows = vec![Row::new(1, "alice", "a@x.com"), Row::new(2, "\u{e9}", "")];
    let mut expected = text("t");
    expected.extend(le64(2));
    expected.extend(le64(2));
    for r in rows.iter() {
        table.append(r.clone()).unwrap();
        expected.extend(rowstore::codec::encode(r));
    }
    assert_eq!(table.db_close(), expected);
}

#[test]
fn undecodable_snapshot_is_an_error() {
    for bytes in [
        vec![1u8],
        vec![0xff; 8],
        text("fct"),
        image("fct", 1, &[vec![1, 0, 0, 0]]),
        image("fct", 1, &[row(1, "alice", "a@x.com")])[..40].to_vec(),
    ]
    .iter()
    {
        match db_open("fct", bytes) {
            Err(SerializationError::Undecodable(words)) => assert!(!words.is_empty()),
            other => panic!("expected an undecodable snapshot, got {:?}", other.map(|t| t.select())),
        }
    }
}

#[test]
fn snapshot_with_text_that_is_not_utf8_is_an_error() {
    let mut bytes = le64(2);
    bytes.extend_from_slice(&[0xff, 0xfe]);
    bytes.extend(le64(0));
    bytes.extend(le64(0));
    assert!(matches!(db_open("fct", &bytes), Err(SerializationError::Undecodable(_))));
}

#[test]
fn snapshot_whose_count_disagrees_with_its_rows_is_corrupt() {
    let more = image("fct", 2, &[row(1, "alice", "a@x.com")]);
    assert_eq!(db_open("fct", &more).map(|t| t.select()), Err(SerializationError::Corrupt));
    let fewer = image("fct", 0, &[row(1, "alice", "a@x.com")]);
    assert_eq!(db_open("fct", &fewer).map(|t| t.select()), Err(SerializationError::Corrupt));
}

#[test]
fn snapshot_with_more_rows_than_a_table_holds_is_corrupt() {
    let rows: Vec<Vec<u8>> = (0..TABLE_MAX_ROWS + 1).map(|i| row(i as u32, "u", "e")).collect();
    let bytes = image("fct", rows.len() as u64, &rows);
    assert_eq!(db_open("fct", &bytes).map(|t| t.select()), Err(SerializationError::Corrupt));
    let bytes = image("fct", TABLE_MAX_ROWS as u64, &rows[..TABLE_MAX_ROWS]);
    assert_eq!(db_open("fct", &bytes).map(|t| t.num_rows()), Ok(TABLE_MAX_ROWS));
}

#[test]
fn from_parts_checks_the_count() {
    let rows = vec![(1u32, "a".to_owned(), "b".to_owned())];
    assert!(matches!(
        Table::from_parts(("t".to_owned(), 0, rows.clone())),
        Err(SerializationError::Corrupt)
    ));
    assert!(matches!(
        Table::from_parts(("t".to_owned(), 2, rows.clone())),
        Err(SerializationError::Corrupt)
    ));
    let table = Table::from_parts(("t".to_owned(), 1, rows)).unwrap();
    assert_eq!(table.select(), vec![Row::new(1, "a", "b")]);
}

#[test]
fn messages_of_snapshot_errors() {
    assert_eq!(
        SerializationError::Undecodable("short read".to_owned()).message(),
        "Deserialization failed: short read"
    );
    assert_eq!(
        SerializationError::Corrupt.message(),
        "Deserialization failed: the snapshot describes no table"
    );
    let error = db_open("fct", &[1u8]).map(|t| t.select()).unwrap_err();
    assert!(error.message().starts_with("Deserialization failed: "));
}

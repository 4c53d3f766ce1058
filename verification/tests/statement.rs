use rowstore::row::Row;
use rowstore::statement::{prepare_statement, ParseError, Statement};

fn insert(id: u32, username: &str, email: &str) -> Result<Statement, ParseError> {
    Ok(Statement::Insert(Row::new(id, username, email)))
}

#[test]
fn insert_with_three_arguments() {
    assert_eq!(prepare_statement("insert 1 alice a@x.com"), insert(1, "alice", "a@x.com"));
    assert_eq!(prepare_statement("  insert\t2  bob   b@x.com  "), insert(2, "bob", "b@x.com"));
}

#[test]
fn insert_ignores_further_words() {
    assert_eq!(
        prepare_statement("insert 1 alice a@x.com and more"),
        insert(1, "alice", "a@x.com")
    );
}

#[test]
fn insert_accepts_every_32_bit_id() {
    assert_eq!(prepare_statement("insert 0 a b"), insert(0, "a", "b"));
    assert_eq!(prepare_statement("insert 4294967295 a b"), insert(u32::MAX, "a", "b"));
    assert_eq!(prepare_statement("insert +7 a b"), insert(7, "a", "b"));
    assert_eq!(prepare_statement("insert 007 a b"), insert(7, "a", "b"));
}

#[test]
fn insert_with_an_id_that_is_no_number() {
    assert_eq!(prepare_statement("insert abc alice a@x.com"), Err(ParseError::InvalidId));
    assert_eq!(prepare_statement("insert -1 alice a@x.com"), Err(ParseError::InvalidId));
    assert_eq!(prepare_statement("insert 1.5 alice a@x.com"), Err(ParseError::InvalidId));
    assert_eq!(prepare_statement("insert 4294967296 alice a@x.com"), Err(ParseError::InvalidId));
}

#[test]
fn insert_with_too_few_arguments() {
    assert_eq!(prepare_statement("insert 1 alice"), Err(ParseError::InvalidFormat));
    assert_eq!(prepare_statement("insert 1"), Err(ParseError::InvalidFormat));
    assert_eq!(prepare_statement("insert"), Err(ParseError::InvalidFormat));
}

#[test]
fn too_few_arguments_is_reported_before_a_bad_id() {
    assert_eq!(prepare_statement("insert abc alice"), Err(ParseError::InvalidFormat));
}

#[test]
fn select_and_truncate() {
    assert_eq!(prepare_statement("select"), Ok(Statement::Select));
    assert_eq!(prepare_statement("select * from somewhere"), Ok(Statement::Select));
    assert_eq!(prepare_statement("truncate"), Ok(Statement::Truncate));
    assert_eq!(prepare_statement(" truncate now"), Ok(Statement::Truncate));
}

#[test]
fn keywords_are_case_sensitive() {
    assert_eq!(
        prepare_statement("SELECT"),
        Err(ParseError::UnknownCommand("SELECT".to_owned()))
    );
    assert_eq!(
        prepare_statement("Insert 1 a b"),
        Err(ParseError::UnknownCommand("Insert".to_owned()))
    );
}

#[test]
fn unknown_first_word() {
    assert_eq!(
        prepare_statement("delete 1"),
        Err(ParseError::UnknownCommand("delete".to_owned()))
    );
    assert_eq!(
        prepare_statement("selec"),
        Err(ParseError::UnknownCommand("selec".to_owned()))
    );
    assert_eq!(
        prepare_statement(".exit"),
        Err(ParseError::UnknownCommand(".exit".to_owned()))
    );
}

#[test]
fn line_without_a_word() {
    assert_eq!(prepare_statement(""), Err(ParseError::UnknownCommand(String::new())));
    assert_eq!(prepare_statement("  \t "), Err(ParseError::UnknownCommand(String::new())));
}

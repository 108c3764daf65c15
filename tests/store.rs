use db_cli::{create_database, BazaDate, Client, OutOfRange};

fn fields(c: &Client) -> (u64, &str, &str, &str, &str) {
    (c.nr_ordine, c.nume.as_str(), c.prenume.as_str(), c.nr_telefon.as_str(), c.adresa.as_str())
}

fn two_records() -> BazaDate {
    create_database(String::from("Doe\nJohn\n555-1234\n1 Main St\nLee\nAnn\n555-9876\n2 Oak Ave\n"))
}

#[test]
fn load_single_record() {
    let db = create_database(String::from("Doe\nJohn\n555-1234\n1 Main St\n"));
    assert_eq!(db.clienti.len(), 1);
    assert_eq!(fields(&db.clienti[0]), (1, "Doe", "John", "555-1234", "1 Main St"));
    assert_eq!(db.top, 1);
}

#[test]
fn load_empty_text() {
    let db = create_database(String::new());
    assert!(db.clienti.is_empty());
    assert_eq!(db.top, 0);
}

#[test]
fn load_assigns_dense_ordinals_in_file_order() {
    let db = two_records();
    assert_eq!(db.clienti.len(), 2);
    assert_eq!(fields(&db.clienti[0]), (1, "Doe", "John", "555-1234", "1 Main St"));
    assert_eq!(fields(&db.clienti[1]), (2, "Lee", "Ann", "555-9876", "2 Oak Ave"));
    assert_eq!(db.top, 2);
}

#[test]
fn load_discards_incomplete_trailing_group() {
    let db = create_database(String::from("Doe\nJohn\n555-1234\n1 Main St\nLee\nAnn\n"));
    assert_eq!(db.clienti.len(), 1);
    assert_eq!(db.top, 1);
}

#[test]
fn load_ignores_text_after_last_newline() {
    let db = create_database(String::from("Doe\nJohn\n555-1234\n1 Main St"));
    assert!(db.clienti.is_empty());
    assert_eq!(db.top, 0);
}

#[test]
fn load_strips_trailing_carriage_returns() {
    let db = create_database(String::from("Doe\r\nJohn\r\r\n555\r1234\r\n\r\n"));
    assert_eq!(db.clienti.len(), 1);
    assert_eq!(fields(&db.clienti[0]), (1, "Doe", "John", "555\r1234", ""));
}

#[test]
fn load_keeps_empty_fields() {
    let db = create_database(String::from("\n\n\n\n"));
    assert_eq!(db.clienti.len(), 1);
    assert_eq!(fields(&db.clienti[0]), (1, "", "", "", ""));
}

#[test]
fn save_writes_four_lines_per_record() {
    let db = two_records();
    assert_eq!(db.save(), "Doe\nJohn\n555-1234\n1 Main St\nLee\nAnn\n555-9876\n2 Oak Ave\n");
    assert_eq!(BazaDate::new().save(), "");
}

#[test]
fn save_then_load_round_trips() {
    let mut db = two_records();
    db.delete_record(0).unwrap();
    db.insert_record(
        String::from("Kim"),
        String::from("Mia"),
        String::new(),
        String::from("3 Elm Rd"),
    );
    let back = create_database(db.save());
    assert_eq!(back.clienti.len(), 2);
    assert_eq!(fields(&back.clienti[0]), (1, "Lee", "Ann", "555-9876", "2 Oak Ave"));
    assert_eq!(fields(&back.clienti[1]), (2, "Kim", "Mia", "", "3 Elm Rd"));
    assert_eq!(back.top, 2);
}

#[test]
fn delete_then_insert_assigns_next_ordinal() {
    let mut db = two_records();
    assert_eq!(db.delete_record(0), Ok(()));
    assert_eq!(db.clienti.len(), 1);
    assert_eq!(fields(&db.clienti[0]), (2, "Lee", "Ann", "555-9876", "2 Oak Ave"));
    assert_eq!(db.top, 2);
    let c = db.insert_record(
        String::from("Kim"),
        String::from("Mia"),
        String::from("555-0000"),
        String::from("3 Elm Rd"),
    );
    assert_eq!(c.nr_ordine, 3);
    assert_eq!(db.clienti.len(), 2);
    assert_eq!(fields(&db.clienti[1]), (3, "Kim", "Mia", "555-0000", "3 Elm Rd"));
    assert_eq!(db.top, 3);
}

#[test]
fn delete_keeps_order_of_the_rest() {
    let mut db = create_database(String::from("A\na\n1\nx\nB\nb\n2\ny\nC\nc\n3\nz\n"));
    db.delete_record(1).unwrap();
    assert_eq!(db.clienti.len(), 2);
    assert_eq!(db.clienti[0].nume, "A");
    assert_eq!(db.clienti[1].nume, "C");
    assert_eq!(db.clienti[1].nr_ordine, 3);
    assert_eq!(db.top, 3);
}

#[test]
fn delete_out_of_range_fails_and_changes_nothing() {
    let mut db = two_records();
    assert_eq!(db.delete_record(2), Err(OutOfRange { position: 2, len: 2 }));
    assert_eq!(db.clienti.len(), 2);
    assert_eq!(db.top, 2);
    let mut empty = BazaDate::new();
    assert_eq!(empty.delete_record(0), Err(OutOfRange { position: 0, len: 0 }));
}

#[test]
fn insert_into_new_store_starts_at_one() {
    let mut db = BazaDate::new();
    let c = db.insert_record(String::from("a"), String::from("b"), String::from("c"), String::from("d"));
    assert_eq!(fields(&c), (1, "a", "b", "c", "d"));
    assert_eq!(db.top, 1);
}

#[test]
fn all_copies_records_in_order() {
    let db = two_records();
    let all = db.all();
    assert_eq!(all.len(), 2);
    assert_eq!(fields(&all[0]), fields(&db.clienti[0]));
    assert_eq!(fields(&all[1]), fields(&db.clienti[1]));
}

#[test]
fn new_client_is_empty() {
    let c = Client::new();
    assert_eq!(fields(&c), (0, "", "", "", ""));
    let d = c.clone();
    assert_eq!(fields(&d), (0, "", "", "", ""));
}

#[test]
fn default_and_clone_of_store() {
    let d = BazaDate::default();
    assert!(d.clienti.is_empty());
    assert_eq!(d.top, 0);
    let mut db = two_records();
    let copy = db.clone();
    db.delete_record(0).unwrap();
    assert_eq!(copy.clienti.len(), 2);
    assert_eq!(copy.top, 2);
    assert_eq!(fields(&copy.clienti[0]), (1, "Doe", "John", "555-1234", "1 Main St"));
}

use db_cli::{
    create_database, decimal_string, display_row, has_substring, sort_order, BazaDate, QueryMode,
    SortMode, SortOrd,
};

fn two_records() -> BazaDate {
    create_database(String::from("Doe\nJohn\n555-1234\n1 Main St\nLee\nAnn\n555-9876\n2 Oak Ave\n"))
}

fn row(cells: [&str; 5]) -> Vec<String> {
    cells.iter().map(|c| c.to_string()).collect()
}

#[test]
fn query_single_record_row() {
    let db = create_database(String::from("Doe\nJohn\n555-1234\n1 Main St\n"));
    let rows = db.query_db("", QueryMode::FirstName, SortMode::Id, SortOrd::Incr);
    assert_eq!(rows, vec![row(["1", "John", "Doe", "555-1234", "1 Main St"])]);
}

#[test]
fn query_by_last_name_prefix() {
    let db = two_records();
    let rows = db.query_db("Le", QueryMode::LastName, SortMode::Id, SortOrd::Incr);
    assert_eq!(rows, vec![row(["2", "Ann", "Lee", "555-9876", "2 Oak Ave"])]);
}

#[test]
fn query_is_case_sensitive() {
    let db = two_records();
    assert!(db.query_db("le", QueryMode::LastName, SortMode::Id, SortOrd::Incr).is_empty());
}

#[test]
fn query_substring_in_the_middle() {
    let db = two_records();
    let pos = db.query_positions("Oak", QueryMode::Address, SortMode::Id, SortOrd::Incr);
    assert_eq!(pos, vec![1]);
    let pos = db.query_positions("-", QueryMode::PhoneNumber, SortMode::Id, SortOrd::Decr);
    assert_eq!(pos, vec![1, 0]);
    let pos = db.query_positions("oh", QueryMode::FirstName, SortMode::Id, SortOrd::Incr);
    assert_eq!(pos, vec![0]);
}

#[test]
fn empty_query_shows_all_sorted() {
    let db = two_records();
    let rows = db.query_db("", QueryMode::Address, SortMode::FirstName, SortOrd::Incr);
    assert_eq!(
        rows,
        vec![
            row(["2", "Ann", "Lee", "555-9876", "2 Oak Ave"]),
            row(["1", "John", "Doe", "555-1234", "1 Main St"]),
        ]
    );
    let rows = db.query_db("", QueryMode::Address, SortMode::Id, SortOrd::Decr);
    assert_eq!(rows[0][0], "2");
    assert_eq!(rows[1][0], "1");
}

#[test]
fn query_leaves_store_unchanged_and_repeats() {
    let db = two_records();
    let a = db.query_db("n", QueryMode::FirstName, SortMode::LastName, SortOrd::Decr);
    let b = db.query_db("n", QueryMode::FirstName, SortMode::LastName, SortOrd::Decr);
    assert_eq!(a, b);
    assert_eq!(db.clienti.len(), 2);
    assert_eq!(db.save(), two_records().save());
}

#[test]
fn sort_keeps_equal_keys_in_input_order() {
    let db = create_database(String::from(
        "Lee\nAnn\n3\nx\nDoe\nBob\n1\ny\nKim\nAnn\n2\nz\nAbe\nCid\n0\nw\n",
    ));
    assert_eq!(sort_order(&db.clienti, SortMode::FirstName, SortOrd::Incr), vec![0, 2, 1, 3]);
    assert_eq!(sort_order(&db.clienti, SortMode::FirstName, SortOrd::Decr), vec![3, 1, 0, 2]);
}

#[test]
fn sort_descending_reverses_distinct_keys() {
    let db = create_database(String::from(
        "b\nx\n2\nq\na\nx\n1\nq\nc\nx\n3\nq\n",
    ));
    assert_eq!(sort_order(&db.clienti, SortMode::LastName, SortOrd::Incr), vec![1, 0, 2]);
    assert_eq!(sort_order(&db.clienti, SortMode::LastName, SortOrd::Decr), vec![2, 0, 1]);
    assert_eq!(sort_order(&db.clienti, SortMode::PhoneNumber, SortOrd::Decr), vec![2, 0, 1]);
}

#[test]
fn sort_text_puts_prefix_first_and_compares_by_code_point() {
    let db = create_database(String::from(
        "x\nab\n1\nq\nx\na\n1\nq\nx\nB\n1\nq\nx\nb\n1\nq\n",
    ));
    assert_eq!(sort_order(&db.clienti, SortMode::FirstName, SortOrd::Incr), vec![2, 1, 0, 3]);
}

#[test]
fn sort_by_ordinal_after_insert() {
    let mut db = two_records();
    db.delete_record(0).unwrap();
    db.insert_record(String::from("A"), String::from("B"), String::from("C"), String::from("D"));
    assert_eq!(sort_order(&db.clienti, SortMode::Id, SortOrd::Decr), vec![1, 0]);
    assert_eq!(sort_order(&db.clienti, SortMode::Address, SortOrd::Incr), vec![0, 1]);
    let rows = db.query_db("", QueryMode::FirstName, SortMode::Id, SortOrd::Decr);
    assert_eq!(rows[0], row(["3", "B", "A", "C", "D"]));
}

#[test]
fn sort_of_empty_store() {
    let db = BazaDate::new();
    assert!(sort_order(&db.clienti, SortMode::Id, SortOrd::Incr).is_empty());
    assert!(db.query_db("x", QueryMode::FirstName, SortMode::Id, SortOrd::Incr).is_empty());
}

#[test]
fn substring_edge_cases() {
    let h: Vec<char> = "abcabd".chars().collect();
    let n = |s: &str| s.chars().collect::<Vec<char>>();
    assert!(has_substring(&h, &n("")));
    assert!(has_substring(&h, &n("abd")));
    assert!(has_substring(&h, &n("abcabd")));
    assert!(!has_substring(&h, &n("abcabdx")));
    assert!(!has_substring(&h, &n("abe")));
    assert!(has_substring(&n(""), &n("")));
    assert!(!has_substring(&n(""), &n("a")));
}

#[test]
fn decimal_of_ordinals() {
    assert_eq!(decimal_string(0), "0");
    assert_eq!(decimal_string(7), "7");
    assert_eq!(decimal_string(10), "10");
    assert_eq!(decimal_string(1234567), "1234567");
    assert_eq!(decimal_string(u64::MAX), "18446744073709551615");
}

#[test]
fn display_row_order_of_fields() {
    let db = two_records();
    assert_eq!(display_row(&db.clienti[0]), row(["1", "John", "Doe", "555-1234", "1 Main St"]));
}

use csv_tool::error::TableError;
use csv_tool::search::{find, find_rows, select};
use csv_tool::table::Table;

fn strings(items: &[&str]) -> Vec<String> {
    items.iter().map(|s| s.to_string()).collect()
}

#[test]
fn find_three_in_age_returns_alice() {
    let found = find(b"name,age\nAlice,30\nBob,\n", "age", "3").unwrap();
    assert_eq!(found.column, 1);
    assert_eq!(found.rows, vec![1]);
    assert_eq!(found.table.header, strings(&["name", "age"]));
    assert_eq!(found.table.rows[found.rows[0] - 1], strings(&["Alice", "30"]));
}

#[test]
fn find_by_index_is_find_by_name() {
    let data = b"name,age\nAlice,30\nBob,\n";
    let by_name = find(data, "age", "3").unwrap();
    let by_index = find(data, "1", "3").unwrap();
    assert_eq!(by_name.column, by_index.column);
    assert_eq!(by_name.rows, by_index.rows);
}

#[test]
fn search_ignores_case() {
    let data = "name,city\nAlice,BERLIN\nBob,berlin\nCarol,Bern\nDave,Überlingen\nEve,ÜBERLINGEN\n";
    assert_eq!(find(data.as_bytes(), "city", "berlin").unwrap().rows, vec![1, 2, 4, 5]);
    assert_eq!(find(data.as_bytes(), "city", "BER").unwrap().rows, vec![1, 2, 3, 4, 5]);
    assert_eq!(find(data.as_bytes(), "city", "über").unwrap().rows, vec![4, 5]);
    assert_eq!(find(data.as_bytes(), "city", "ÜBER").unwrap().rows, vec![4, 5]);
    assert_eq!(find(data.as_bytes(), "city", "xyz").unwrap().rows, Vec::<usize>::new());
    assert_eq!(find(data.as_bytes(), "name", "A").unwrap().rows, vec![1, 3, 4]);
}

#[test]
fn matches_keep_their_row_numbers() {
    let table = Table {
        header: strings(&["k", "v"]),
        rows: vec![
            strings(&["1", "no"]),
            strings(&["2", "yes"]),
            strings(&["3", "no"]),
            strings(&["4", "YES and more"]),
            strings(&["5", "eyes"]),
        ],
    };
    assert_eq!(find_rows(&table, 1, "yes"), vec![2, 4, 5]);
    assert_eq!(find_rows(&table, 0, "3"), vec![3]);
}

#[test]
fn a_row_too_short_for_the_column_does_not_match() {
    let table = Table {
        header: strings(&["a", "b", "c"]),
        rows: vec![strings(&["x", "y", "z"]), strings(&["x"]), strings(&[]), strings(&["x", "y", "zz", "z"])],
    };
    assert_eq!(find_rows(&table, 2, "z"), vec![1, 4]);
    assert_eq!(find_rows(&table, 7, "z"), Vec::<usize>::new());
}

#[test]
fn the_empty_term_matches_every_row_that_has_the_field() {
    let table = Table {
        header: strings(&["a", "b"]),
        rows: vec![strings(&["1", "x"]), strings(&["2"]), strings(&["3", ""]), strings(&[]), strings(&["5", "y", "z"])],
    };
    assert_eq!(find_rows(&table, 1, ""), vec![1, 3, 5]);
    assert_eq!(find_rows(&table, 0, ""), vec![1, 2, 3, 5]);
    assert_eq!(find_rows(&table, 2, ""), vec![5]);
    let found = find(b"a,b\n1,x\n2\n3,\n", "b", "").unwrap();
    assert_eq!(found.rows, vec![1, 3]);
}

#[test]
fn select_numbers_rows_from_one() {
    let cells = vec![Some("abc".to_string()), None, Some("".to_string()), Some("xbcx".to_string())];
    assert_eq!(select(&cells, "bc"), vec![1, 4]);
    assert_eq!(select(&cells, ""), vec![1, 3, 4]);
    assert_eq!(select(&cells, "BC"), Vec::<usize>::new());
    assert_eq!(select(&vec![], "x"), Vec::<usize>::new());
}

#[test]
fn a_bad_column_fails_before_the_rows_are_read() {
    let data: &[u8] = b"name,age\nAlice,\xff\n";
    assert!(matches!(find(data, "nope", "x"), Err(TableError::ColumnNotFound(n)) if n == "nope"));
    assert!(matches!(find(data, "2", "x"), Err(TableError::OutOfRange { index: 2, len: 2 })));
    assert!(matches!(find(data, "age", "x"), Err(TableError::Parse(_))));
    assert!(matches!(find(b"\xff,age\n", "age", "x"), Err(TableError::Parse(_))));
}

use csv_tool::listing::{format_record, list, read, show};
use csv_tool::table::Table;

fn strings(items: &[&str]) -> Vec<String> {
    items.iter().map(|s| s.to_string()).collect()
}

#[test]
fn a_line_has_a_padded_label_and_bars() {
    assert_eq!(format_record(&strings(&["name", "age"]), 0, true), "    H | name | age");
    assert_eq!(format_record(&strings(&["Alice", "30"]), 1, false), "    1 | Alice | 30");
    assert_eq!(format_record(&strings(&["Bob", ""]), 2, false), "    2 | Bob | ");
    assert_eq!(format_record(&strings(&["x"]), 42, false), "   42 | x");
    assert_eq!(format_record(&strings(&["x"]), 99999, false), "99999 | x");
    assert_eq!(format_record(&strings(&["x"]), 123456, false), "123456 | x");
    assert_eq!(format_record(&strings(&[]), 7, false), "    7 | ");
    assert_eq!(format_record(&strings(&["x"]), 0, false), "    0 | x");
    assert_eq!(format_record(&strings(&["x"]), 5, true), "    H | x");
}

#[test]
fn long_fields_are_cut_for_display() {
    assert_eq!(show(""), "");
    assert_eq!(show("12345678901234567890"), "12345678901234567890");
    assert_eq!(show("123456789012345678901"), "12345678901234567...");
    assert_eq!(show("abcdefghijklmnopqrstuvwxyz"), "abcdefghijklmnopq...");
    assert_eq!(show("ääääääääääääääääääää"), "ääääääääääääääääääää");
    assert_eq!(show("äääääääääääääääääääää"), "äääääääääääääääää...");
    assert_eq!(
        format_record(&strings(&["short", "this field is far too long"]), 3, false),
        "    3 | short | this field is far..."
    );
}

#[test]
fn read_lists_every_row_when_head_is_zero() {
    let out = read(b"name,age\nAlice,30\nBob,\n", 0, false).unwrap();
    assert_eq!(out.header.as_deref(), Some("    H | name | age"));
    assert_eq!(out.rows, vec!["    1 | Alice | 30", "    2 | Bob | "]);
    assert_eq!(out.total, 2);
}

#[test]
fn head_limits_what_is_shown_but_not_what_is_counted() {
    let data = b"n\n1\n2\n3\n4\n5\n";
    let out = read(data, 2, false).unwrap();
    assert_eq!(out.rows, vec!["    1 | 1", "    2 | 2"]);
    assert_eq!(out.total, 5);
    let out = read(data, 5, false).unwrap();
    assert_eq!(out.rows.len(), 5);
    assert_eq!(out.total, 5);
    let out = read(data, 9, false).unwrap();
    assert_eq!(out.rows.len(), 5);
    assert_eq!(out.rows[4], "    5 | 5");
    assert_eq!(out.total, 5);
}

#[test]
fn the_header_line_can_be_left_out() {
    let out = read(b"name,age\nAlice,30\n", 0, true).unwrap();
    assert_eq!(out.header, None);
    assert_eq!(out.rows, vec!["    1 | Alice | 30"]);
    assert_eq!(out.total, 1);
}

#[test]
fn rows_of_uneven_width_are_listed_as_they_are() {
    let table = Table {
        header: strings(&["a", "b"]),
        rows: vec![strings(&["1"]), strings(&["2", "3", "4"])],
    };
    let out = list(&table, 0, false);
    assert_eq!(out.header.as_deref(), Some("    H | a | b"));
    assert_eq!(out.rows, vec!["    1 | 1", "    2 | 2 | 3 | 4"]);
    assert_eq!(out.total, 2);
}

#[test]
fn display_cuts_do_not_change_the_table() {
    let data = b"k,v\n1,abcdefghijklmnopqrstuvwxyz\n";
    let out = read(data, 0, false).unwrap();
    assert_eq!(out.rows, vec!["    1 | 1 | abcdefghijklmnopq..."]);
    let table = Table::parse(data).unwrap();
    assert_eq!(table.rows[0][1], "abcdefghijklmnopqrstuvwxyz");
}

#[test]
fn an_empty_file_lists_an_empty_header() {
    let out = read(b"", 0, false).unwrap();
    assert_eq!(out.header.as_deref(), Some("    H | "));
    assert!(out.rows.is_empty());
    assert_eq!(out.total, 0);
}

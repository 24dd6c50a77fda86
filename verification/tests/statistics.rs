use csv_tool::error::TableError;
use csv_tool::listing::read;
use csv_tool::stats::{column_stats, count_empty, share, stats, summarize};
use csv_tool::table::Table;

fn strings(items: &[&str]) -> Vec<String> {
    items.iter().map(|s| s.to_string()).collect()
}

fn people() -> &'static [u8] {
    b"name,age\nAlice,30\nBob,\n"
}

#[test]
fn stats_of_the_people_file() {
    let s = stats(people()).unwrap();
    assert_eq!(s.row_count, 2);
    assert_eq!(s.column_count, 2);
    assert_eq!(s.empty_cells, 1);
    assert_eq!(s.empty_percent(), 2500);
    assert_eq!(s.columns.len(), 2);
    assert_eq!(s.columns[0].name, "name");
    assert_eq!(s.columns[0].distinct, 2);
    assert_eq!(s.columns[0].most_common, Some(("Alice".to_string(), 1)));
    assert_eq!(s.columns[1].name, "age");
    assert_eq!(s.columns[1].distinct, 2);
    assert_eq!(s.columns[1].most_common, Some(("30".to_string(), 1)));
    assert_eq!(s.most_common_percent(1), Some(500));
    assert_eq!(s.most_common_percent(2), None);
}

#[test]
fn stats_row_count_equals_read_total() {
    let files: [&[u8]; 5] = [
        people(),
        b"",
        b"a,b,c\n",
        b"a,b\n1\n2,3,4\n\n5,6\n",
        b"x\n1\n2\n3\n4\n5\n6\n7\n",
    ];
    for data in files {
        let s = stats(data).unwrap();
        for head in [0, 1, 3, 100] {
            let listing = read(data, head, false).unwrap();
            assert_eq!(s.row_count, listing.total);
        }
    }
}

#[test]
fn stats_and_read_fail_on_the_same_files() {
    let bad: &[u8] = b"a,b\n1,\xff\n";
    assert!(matches!(stats(bad), Err(TableError::Parse(_))));
    assert!(matches!(read(bad, 0, false), Err(TableError::Parse(_))));
}

#[test]
fn most_common_goes_to_the_first_value_that_reaches_the_top_count() {
    let rows = vec![strings(&["a"]), strings(&["b"]), strings(&["b"]), strings(&["a"])];
    let s = column_stats(&"letter".to_string(), &rows, 0);
    assert_eq!(s.distinct, 2);
    assert_eq!(s.most_common, Some(("b".to_string(), 2)));

    let rows = vec![strings(&["a"]), strings(&["b"]), strings(&["a"]), strings(&["b"])];
    let s = column_stats(&"letter".to_string(), &rows, 0);
    assert_eq!(s.most_common, Some(("a".to_string(), 2)));

    let rows = vec![strings(&["x"]), strings(&["y"]), strings(&["y"]), strings(&["y"]), strings(&["x"])];
    let s = column_stats(&"letter".to_string(), &rows, 0);
    assert_eq!(s.most_common, Some(("y".to_string(), 3)));
}

#[test]
fn short_rows_add_nothing_to_a_column() {
    let rows = vec![strings(&["1", "x"]), strings(&["2"]), strings(&["3", "x"]), strings(&[])];
    let s = column_stats(&"second".to_string(), &rows, 1);
    assert_eq!(s.name, "second");
    assert_eq!(s.distinct, 1);
    assert_eq!(s.most_common, Some(("x".to_string(), 2)));
    let s = column_stats(&"third".to_string(), &rows, 2);
    assert_eq!(s.distinct, 0);
    assert_eq!(s.most_common, None);
}

#[test]
fn empty_cells_count_fields_beyond_the_header_and_skip_missing_ones() {
    let table = Table {
        header: strings(&["a", "b"]),
        rows: vec![strings(&["", "1", ""]), strings(&["2"]), strings(&["", ""])],
    };
    assert_eq!(count_empty(&table.rows), 4);
    let s = summarize(&table);
    assert_eq!(s.row_count, 3);
    assert_eq!(s.column_count, 2);
    assert_eq!(s.empty_cells, 4);
    assert_eq!(s.empty_percent(), 6667);
    assert_eq!(s.columns[0].distinct, 2);
    assert_eq!(s.columns[0].most_common, Some(("".to_string(), 2)));
    assert_eq!(s.most_common_percent(0), Some(667));
}

#[test]
fn a_table_without_cells_has_zero_percent_empty() {
    let no_rows = summarize(&Table { header: strings(&["a", "b"]), rows: vec![] });
    assert_eq!(no_rows.row_count, 0);
    assert_eq!(no_rows.empty_cells, 0);
    assert_eq!(no_rows.empty_percent(), 0);
    assert_eq!(no_rows.columns[0].distinct, 0);
    assert_eq!(no_rows.columns[0].most_common, None);
    assert_eq!(no_rows.most_common_percent(0), None);

    let no_columns = summarize(&Table { header: vec![], rows: vec![strings(&[""])] });
    assert_eq!(no_columns.column_count, 0);
    assert_eq!(no_columns.empty_cells, 1);
    assert_eq!(no_columns.empty_percent(), 0);
    assert!(no_columns.columns.is_empty());

    let nothing = stats(b"").unwrap();
    assert_eq!(nothing.row_count, 0);
    assert_eq!(nothing.column_count, 0);
    assert_eq!(nothing.empty_percent(), 0);
}

#[test]
fn share_rounds_to_the_nearest_unit() {
    assert_eq!(share(1, 4, 10_000), 2500);
    assert_eq!(share(1, 3, 10_000), 3333);
    assert_eq!(share(2, 3, 10_000), 6667);
    assert_eq!(share(1, 8, 1_000), 125);
    assert_eq!(share(1, 1999, 1_000), 1);
    assert_eq!(share(1, 2001, 1_000), 0);
    assert_eq!(share(5, 0, 1_000), 0);
    assert_eq!(share(0, 7, 1_000), 0);
    assert_eq!(share(3, 2, 10_000), 15_000);
    assert_eq!(share(usize::MAX, u128::MAX, 10_000), 0);
    assert_eq!(share(usize::MAX, 1, 10), (usize::MAX as u128) * 10);
}

#[test]
fn share_sends_halves_to_the_even_unit() {
    assert_eq!(share(1, 16, 1_000), 62);
    assert_eq!(share(3, 16, 1_000), 188);
    assert_eq!(share(1, 2000, 1_000), 0);
    assert_eq!(share(3, 2000, 1_000), 2);
    assert_eq!(share(1, 32, 10_000), 312);
    assert_eq!(share(3, 32, 10_000), 938);
    assert_eq!(share(1, 2, 1), 0);
    assert_eq!(share(3, 2, 1), 2);
}

#[test]
fn share_prints_like_a_quotient_of_floats() {
    for whole in [1usize, 2, 4, 8, 16, 32, 64, 128, 3, 7, 10, 12, 1000] {
        for part in 0..=whole {
            let quotient = (part as f64 / whole as f64) * 100.0;
            let tenths = share(part, whole as u128, 1_000);
            let hundredths = share(part, whole as u128, 10_000);
            if whole.is_power_of_two() || (part * 2000) % whole != whole / 2 {
                assert_eq!(format!("{}.{}", tenths / 10, tenths % 10), format!("{:.1}", quotient));
            }
            if whole.is_power_of_two() || (part * 20000) % whole != whole / 2 {
                assert_eq!(
                    format!("{}.{:02}", hundredths / 100, hundredths % 100),
                    format!("{:.2}", quotient)
                );
            }
        }
    }
}

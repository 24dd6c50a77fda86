use csv_tool::error::TableError;
use csv_tool::projection::{encode, extract, join_lines, pick, project};
use csv_tool::table::{field, Table};

fn strings(items: &[&str]) -> Vec<String> {
    items.iter().map(|s| s.to_string()).collect()
}

#[test]
fn extract_age_then_name() {
    let out = extract(b"name,age\nAlice,30\nBob,\n", "age,name").unwrap();
    assert_eq!(out.bytes, b"age,name\n30,Alice\n,Bob\n");
    assert_eq!(out.columns, 2);
    assert_eq!(out.rows, 2);
}

#[test]
fn extract_of_all_columns_reproduces_the_values() {
    let data: &[u8] = b"name,age,city\nAlice,30,Paris\nBob\nCarol,41\n";
    let out = extract(data, "0,1,2").unwrap();
    assert_eq!(out.bytes, b"name,age,city\nAlice,30,Paris\nBob,,\nCarol,41,\n");
    let again = Table::parse(&out.bytes).unwrap();
    let first = Table::parse(data).unwrap();
    assert_eq!(again.header, first.header);
    assert_eq!(again.rows.len(), first.rows.len());
    for (new, old) in again.rows.iter().zip(first.rows.iter()) {
        assert_eq!(new.len(), first.header.len());
        for c in 0..first.header.len() {
            assert_eq!(new[c], old.get(c).cloned().unwrap_or_default());
        }
    }
    let by_name = extract(data, "name,age,city").unwrap();
    assert_eq!(by_name.bytes, out.bytes);
}

#[test]
fn full_projection_keeps_rows_of_full_width() {
    let table = Table {
        header: strings(&["a", "b"]),
        rows: vec![strings(&["1", "2"]), strings(&["3"]), strings(&["4", "5", "6"]), strings(&[])],
    };
    let out = project(&table, &vec![0, 1]);
    assert_eq!(out.header, table.header);
    assert_eq!(out.rows, vec![strings(&["1", "2"]), strings(&["3", ""]), strings(&["4", "5"]), strings(&["", ""])]);
}

#[test]
fn extract_twice_gives_the_same_bytes() {
    let data: &[u8] = b"id,\"full, name\",note\n1,\"Doe, Jane\",\"said \"\"hi\"\"\"\n2,,\n3\n";
    let first = extract(data, "note, 1 ,id,1").unwrap();
    let second = extract(data, "note, 1 ,id,1").unwrap();
    assert_eq!(first.bytes, second.bytes);
    assert_eq!(first.columns, second.columns);
    assert_eq!(first.rows, second.rows);
    assert_eq!(
        String::from_utf8(first.bytes).unwrap(),
        "note,\"full, name\",id,\"full, name\"\n\"said \"\"hi\"\"\",\"Doe, Jane\",1,\"Doe, Jane\"\n,,2,\n,,3,\n"
    );
}

#[test]
fn a_column_may_be_extracted_twice() {
    let out = extract(b"a,b\n1,2\n", "b,b,a").unwrap();
    assert_eq!(out.bytes, b"b,b,a\n2,2,1\n");
    assert_eq!(out.columns, 3);
    assert_eq!(out.rows, 1);
}

#[test]
fn a_lone_empty_field_is_written_in_quotes() {
    let out = extract(b"a,b\n1,\n,2\n", "b").unwrap();
    assert_eq!(out.bytes, b"b\n\"\"\n2\n");
}

#[test]
fn extract_of_a_file_without_rows_writes_the_header() {
    let out = extract(b"a,b,c\n", "c,a").unwrap();
    assert_eq!(out.bytes, b"c,a\n");
    assert_eq!(out.rows, 0);
}

#[test]
fn extract_fails_on_a_bad_column_before_it_reads_the_rows() {
    let data: &[u8] = b"a,b\n1,\xff\n";
    assert!(matches!(extract(data, "a,zz"), Err(TableError::ColumnNotFound(n)) if n == "zz"));
    assert!(matches!(extract(data, "5"), Err(TableError::OutOfRange { index: 5, len: 2 })));
    assert!(matches!(extract(data, "a"), Err(TableError::Parse(_))));
    assert!(matches!(extract(b"\xffa,b\n", "b"), Err(TableError::Parse(_))));
    assert!(matches!(extract(b"", "0"), Err(TableError::OutOfRange { index: 0, len: 0 })));
}

#[test]
fn pick_fills_missing_fields_with_empty_ones() {
    let record = strings(&["x", "y"]);
    assert_eq!(pick(&record, &vec![1, 0, 2, 1]), strings(&["y", "x", "", "y"]));
    assert_eq!(pick(&record, &vec![]), Vec::<String>::new());
    assert_eq!(pick(&vec![], &vec![0]), strings(&[""]));
}

#[test]
fn field_is_absent_beyond_the_end() {
    let record = strings(&["x", "y"]);
    assert_eq!(field(&record, 0), Some(&"x".to_string()));
    assert_eq!(field(&record, 1), Some(&"y".to_string()));
    assert_eq!(field(&record, 2), None);
    assert_eq!(field(&vec![], 0), None);
}

#[test]
fn encode_writes_the_header_line_first() {
    let table = Table { header: strings(&["k", "v"]), rows: vec![strings(&["1", "a,b"]), strings(&["2", "line\nbreak"])] };
    assert_eq!(encode(&table).unwrap(), b"k,v\n1,\"a,b\"\n2,\"line\nbreak\"\n");
    let bare = Table { header: strings(&["only"]), rows: vec![] };
    assert_eq!(encode(&bare).unwrap(), b"only\n");
}

#[test]
fn parse_reads_rows_of_any_width() {
    let table = Table::parse(b"a,b\n1\n2,3,4\n\"x,y\",\"q\"\"r\"\n").unwrap();
    assert_eq!(table.header, strings(&["a", "b"]));
    assert_eq!(table.rows, vec![strings(&["1"]), strings(&["2", "3", "4"]), strings(&["x,y", "q\"r"])]);
    let empty = Table::parse(b"").unwrap();
    assert!(empty.header.is_empty());
    assert!(empty.rows.is_empty());
    assert!(matches!(Table::parse(b"a\n\xc3\x28\n"), Err(TableError::Parse(_))));
}

#[test]
fn join_lines_keeps_the_order_of_the_lines() {
    assert_eq!(join_lines(&vec![]), Vec::<u8>::new());
    assert_eq!(join_lines(&vec![b"a,b\n".to_vec()]), b"a,b\n");
    assert_eq!(join_lines(&vec![b"h\n".to_vec(), vec![], b"1\n".to_vec(), b"2".to_vec()]), b"h\n1\n2");
}

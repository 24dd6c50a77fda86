//! A parsed file: its header and its data rows.

use vstd::prelude::*;
use crate::codec::{csv_header, csv_records, read_header, read_records};
use crate::error::{ErrorView, TableError};

verus! {

/// A header row and the data rows below it. A row may hold fewer or more
/// fields than the header.
#[derive(Debug)]
pub struct Table {
    pub header: Vec<String>,
    pub rows: Vec<Vec<String>>,
}

/// The contents of a [`Table`] as sequences of characters.
pub struct TableView {
    pub header: Seq<Seq<char>>,
    pub rows: Seq<Seq<Seq<char>>>,
}

impl View for Table {
    type V = TableView;

    open spec fn view(&self) -> TableView {
        TableView { header: self.header.deep_view(), rows: self.rows.deep_view() }
    }
}

/// The table that `data` holds, or `None` where it is not well-formed.
pub open spec fn parsed(data: Seq<u8>) -> Option<TableView> {
    match (csv_header(data), csv_records(data)) {
        (Some(header), Some(rows)) => Some(TableView { header, rows }),
        _ => None,
    }
}

/// The field of `record` at `index`, absent where the record is too short.
pub open spec fn field_at(record: Seq<Seq<char>>, index: int) -> Option<Seq<char>> {
    if 0 <= index < record.len() {
        Some(record[index])
    } else {
        None
    }
}

/// The field of `record` at `index`, absent where the record is too short.
pub fn field<'a>(record: &'a Vec<String>, index: usize) -> (r: Option<&'a String>)
    ensures
        match r {
            Some(f) => field_at(record.deep_view(), index as int) == Some(f@),
            None => field_at(record.deep_view(), index as int) is None,
        },
{
    if index < record.len() {
        Some(&record[index])
    } else {
        None
    }
}

impl Table {
    /// Reads the header, then the data rows.
    pub fn parse(data: &[u8]) -> (r: Result<Table, TableError>)
        ensures
            match r {
                Ok(table) => parsed(data@) == Some(table@),
                Err(e) => parsed(data@) is None && e@ == ErrorView::Parse,
            },
    {
        let header = match read_header(data) {
            Ok(header) => header,
            Err(e) => { return Err(TableError::Parse(e)); },
        };
        let rows = match read_records(data) {
            Ok(rows) => rows,
            Err(e) => { return Err(TableError::Parse(e)); },
        };
        Ok(Table { header, rows })
    }
}

} // verus!

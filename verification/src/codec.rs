//! The comma-separated dialect, as the `csv` crate reads and writes it.
//!
//! Nothing in this module is proved. Each function hands its arguments to the
//! `csv` crate and gives the outcome a name that the contracts of the rest of
//! the library are stated over.

use vstd::prelude::*;

verus! {

/// `csv::Error`, the error of the `csv` crate's readers and writers. It is
/// carried along and never looked into.
#[verifier::external_type_specification]
#[verifier::external_body]
pub struct ExCsvError(csv::Error);

/// The header row of `data`: the first record that a `csv::Reader` with
/// flexible row width finds in it, as `csv::Reader::headers` returns it.
/// `None` where `headers` reports an error.
pub uninterp spec fn csv_header(data: Seq<u8>) -> Option<Seq<Seq<char>>>;

/// The data rows of `data`: all records after the first, in order, as the
/// iterator of `csv::Reader::records` yields them from a reader with flexible
/// row width that skips the header row. `None` where the iterator yields an
/// error.
pub uninterp spec fn csv_records(data: Seq<u8>) -> Option<Seq<Seq<Seq<char>>>>;

/// The bytes that reach the sink when `csv::Writer::write_record` writes one
/// record, terminator included, with the writer's default settings. `None`
/// where the writer reports an error.
pub uninterp spec fn csv_line(fields: Seq<Seq<char>>) -> Option<Seq<u8>>;

/// Calls `csv::Reader::headers` on a reader over `data`, built with flexible
/// row width and a header row. The contract only names the outcome: the
/// header is `csv_header(data)`, and an error comes exactly where that is
/// `None`.
#[verifier::external_body]
pub(crate) fn read_header(data: &[u8]) -> (r: Result<Vec<String>, csv::Error>)
    ensures
        match r {
            Ok(header) => csv_header(data@) == Some(header.deep_view()),
            Err(_) => csv_header(data@) is None,
        },
{
    let mut reader = csv::ReaderBuilder::new().flexible(true).has_headers(true).from_reader(data);
    let header = reader.headers()?;
    Ok(header.iter().map(String::from).collect())
}

/// Collects the iterator of `csv::Reader::records` on a reader over `data`,
/// built with flexible row width and a header row, up to its first error.
/// The contract only names the outcome: the rows are `csv_records(data)`, and
/// an error comes exactly where that is `None`.
#[verifier::external_body]
pub(crate) fn read_records(data: &[u8]) -> (r: Result<Vec<Vec<String>>, csv::Error>)
    ensures
        match r {
            Ok(rows) => csv_records(data@) == Some(rows.deep_view()),
            Err(_) => csv_records(data@) is None,
        },
{
    let mut reader = csv::ReaderBuilder::new().flexible(true).has_headers(true).from_reader(data);
    reader.records().map(|record| record.map(|r| r.iter().map(String::from).collect())).collect()
}

/// Calls `csv::Writer::write_record` with `fields` on a fresh writer into
/// memory, then flushes it. The contract only names the outcome: the bytes
/// are `csv_line(fields)`, and an error comes exactly where that is `None`.
#[verifier::external_body]
pub(crate) fn write_line(fields: &Vec<String>) -> (r: Result<Vec<u8>, csv::Error>)
    ensures
        match r {
            Ok(bytes) => csv_line(fields.deep_view()) == Some(bytes@),
            Err(_) => csv_line(fields.deep_view()) is None,
        },
{
    let mut bytes = Vec::new();
    let mut writer = csv::WriterBuilder::new().from_writer(&mut bytes);
    writer.write_record(fields)?;
    writer.flush()?;
    drop(writer);
    Ok(bytes)
}

} // verus!

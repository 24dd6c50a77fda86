//! Projection of chosen columns into new comma-separated text.

use vstd::prelude::*;
use crate::codec::{csv_header, csv_line, csv_records, read_header, read_records, write_line};
use crate::column::{positions, references, resolve_columns, resolved_all};
use crate::error::{ErrorView, TableError};
use crate::table::{field, field_at, Table, TableView};

verus! {

/// The field of `record` at `column`, or the empty field where the record is
/// too short.
pub open spec fn field_or_empty(record: Seq<Seq<char>>, column: int) -> Seq<char> {
    match field_at(record, column) {
        Some(f) => f,
        None => Seq::empty(),
    }
}

/// The fields of `record` at `columns`, in the order of `columns`.
pub open spec fn picked(record: Seq<Seq<char>>, columns: Seq<nat>) -> Seq<Seq<char>> {
    Seq::new(columns.len(), |k: int| field_or_empty(record, columns[k] as int))
}

/// The table that holds the `columns` of `table`, in the order of `columns`:
/// the header and every row are cut to those columns.
pub open spec fn projection(table: TableView, columns: Seq<nat>) -> TableView {
    TableView {
        header: picked(table.header, columns),
        rows: Seq::new(table.rows.len(), |i: int| picked(table.rows[i], columns)),
    }
}

/// The lines of `records`, one per record and in their order. `None` where
/// a record cannot be written.
pub open spec fn lines_of(records: Seq<Seq<Seq<char>>>) -> Option<Seq<Seq<u8>>>
    decreases records.len(),
{
    if records.len() == 0 {
        Some(Seq::empty())
    } else {
        match (lines_of(records.drop_last()), csv_line(records.last())) {
            (Some(before), Some(line)) => Some(before.push(line)),
            _ => None,
        }
    }
}

/// The text of `table`: the header line, then the lines of the rows, one
/// after the other.
pub open spec fn text_of(table: TableView) -> Option<Seq<u8>> {
    match lines_of(seq![table.header] + table.rows) {
        Some(lines) => Some(lines.flatten()),
        None => None,
    }
}

/// The fields of `record` at `columns`, in the order of `columns`, with an
/// empty field where the record is too short.
pub fn pick(record: &Vec<String>, columns: &Vec<usize>) -> (out: Vec<String>)
    ensures
        out.deep_view() == picked(record.deep_view(), positions(columns@)),
{
    let mut out: Vec<String> = Vec::new();
    let mut k: usize = 0;
    while k < columns.len()
        invariant
            k <= columns.len(),
            out@.len() == k,
            forall|j: int|
                0 <= j < k ==> (#[trigger] out@[j])@ == field_or_empty(
                    record.deep_view(),
                    columns@[j] as int,
                ),
        decreases columns.len() - k,
    {
        match field(record, columns[k]) {
            Some(f) => out.push(f.clone()),
            None => out.push(String::new()),
        }
        k += 1;
    }
    proof {
        assert(out.deep_view() =~= picked(record.deep_view(), positions(columns@)));
    }
    out
}

/// Cuts `table` to `columns`, in the order of `columns`.
pub fn project(table: &Table, columns: &Vec<usize>) -> (out: Table)
    ensures
        out@ == projection(table@, positions(columns@)),
{
    let header = pick(&table.header, columns);
    let mut rows: Vec<Vec<String>> = Vec::new();
    let mut i: usize = 0;
    while i < table.rows.len()
        invariant
            i <= table.rows.len(),
            rows@.len() == i,
            forall|j: int|
                0 <= j < i ==> (#[trigger] rows@[j]).deep_view() == picked(
                    table@.rows[j],
                    positions(columns@),
                ),
        decreases table.rows.len() - i,
    {
        rows.push(pick(&table.rows[i], columns));
        i += 1;
    }
    let out = Table { header, rows };
    proof {
        assert(out@.rows =~= projection(table@, positions(columns@)).rows);
    }
    out
}

proof fn lemma_unwritable_stays(records: Seq<Seq<Seq<char>>>, k: int)
    requires
        0 <= k <= records.len(),
        lines_of(records.take(k)) is None,
    ensures
        lines_of(records) is None,
    decreases records.len() - k,
{
    if k < records.len() {
        assert(records.take(k + 1).drop_last() =~= records.take(k));
        lemma_unwritable_stays(records, k + 1);
    } else {
        assert(records.take(k) =~= records);
    }
}

/// Puts `lines` one after the other.
pub fn join_lines(lines: &Vec<Vec<u8>>) -> (out: Vec<u8>)
    ensures
        out@ == lines.deep_view().flatten(),
{
    let ghost all = lines.deep_view();
    let mut out: Vec<u8> = Vec::new();
    let mut i: usize = 0;
    proof {
        assert(all.take(0).flatten() =~= Seq::<u8>::empty());
    }
    while i < lines.len()
        invariant
            i <= lines.len(),
            all == lines.deep_view(),
            out@ == all.take(i as int).flatten(),
        decreases lines.len() - i,
    {
        proof {
            all.lemma_take_succ_push(i as int);
            all.take(i as int).lemma_flatten_push(all[i as int]);
            assert(all[i as int] =~= lines@[i as int]@);
        }
        out.extend_from_slice(lines[i].as_slice());
        i += 1;
    }
    proof {
        all.lemma_take_len();
    }
    out
}

/// Writes `table` out as comma-separated text: the header line, then the
/// rows. Every record is written on its own, whatever its width.
pub fn encode(table: &Table) -> (r: Result<Vec<u8>, TableError>)
    ensures
        match r {
            Ok(bytes) => text_of(table@) == Some(bytes@),
            Err(e) => text_of(table@) is None && e@ == ErrorView::Write,
        },
{
    let ghost records = seq![table@.header] + table@.rows;
    let mut lines: Vec<Vec<u8>> = Vec::new();
    proof {
        assert(records.take(1).drop_last() =~= Seq::<Seq<Seq<char>>>::empty());
        assert(records.take(1).last() == table@.header);
        assert(lines_of(records.take(1).drop_last()) == Some(Seq::<Seq<u8>>::empty()));
    }
    match write_line(&table.header) {
        Ok(line) => {
            lines.push(line);
        },
        Err(e) => {
            proof {
                lemma_unwritable_stays(records, 1);
            }
            return Err(TableError::Write(e));
        },
    }
    proof {
        assert(lines.deep_view() =~~= Seq::<Seq<u8>>::empty().push(lines@[0]@));
    }
    let mut i: usize = 0;
    while i < table.rows.len()
        invariant
            i <= table.rows.len(),
            records == seq![table@.header] + table@.rows,
            lines_of(records.take(i + 1)) == Some(lines.deep_view()),
        decreases table.rows.len() - i,
    {
        let ghost before = lines.deep_view();
        proof {
            assert(records.take(i + 2).drop_last() =~= records.take(i + 1));
            assert(records.take(i + 2).last() == table@.rows[i as int]);
        }
        match write_line(&table.rows[i]) {
            Ok(line) => {
                let ghost bytes = line@;
                lines.push(line);
                proof {
                    assert(lines.deep_view() =~~= before.push(bytes));
                }
            },
            Err(e) => {
                proof {
                    lemma_unwritable_stays(records, i + 2);
                }
                return Err(TableError::Write(e));
            },
        }
        i += 1;
    }
    proof {
        assert(records.take(i + 1) =~= records);
    }
    Ok(join_lines(&lines))
}

/// The outcome of an extraction.
#[derive(Debug)]
pub struct Extraction {
    /// The comma-separated text of the chosen columns, header line first.
    pub bytes: Vec<u8>,
    /// How many columns were chosen.
    pub columns: usize,
    /// How many data rows were written.
    pub rows: usize,
}

/// An [`Extraction`] as plain values.
pub struct ExtractionView {
    pub bytes: Seq<u8>,
    pub columns: nat,
    pub rows: nat,
}

impl View for Extraction {
    type V = ExtractionView;

    open spec fn view(&self) -> ExtractionView {
        ExtractionView {
            bytes: self.bytes@,
            columns: self.columns as nat,
            rows: self.rows as nat,
        }
    }
}

/// What [`extract`] returns for the file `data` and the column list `list`.
/// The header is read first, then the list is resolved against it, then the
/// rows are read, and at last the chosen columns are written out.
pub open spec fn extract_outcome(data: Seq<u8>, list: Seq<char>) -> Result<ExtractionView, ErrorView> {
    match csv_header(data) {
        None => Err(ErrorView::Parse),
        Some(header) => match resolved_all(references(list), header) {
            Err(e) => Err(e),
            Ok(columns) => match csv_records(data) {
                None => Err(ErrorView::Parse),
                Some(rows) => match text_of(projection(TableView { header, rows }, columns)) {
                    None => Err(ErrorView::Write),
                    Some(bytes) => Ok(
                        ExtractionView { bytes, columns: columns.len(), rows: rows.len() },
                    ),
                },
            },
        },
    }
}

/// What a call of [`extract`] came to, as its contract speaks of it.
pub open spec fn outcome_view(r: Result<Extraction, TableError>) -> Result<ExtractionView, ErrorView> {
    match r {
        Ok(x) => Ok(x@),
        Err(e) => Err(e@),
    }
}

/// Reads the file `data`, resolves the comma-separated column list `list`
/// against its header and writes the chosen columns of every row, header
/// included, as new comma-separated text.
pub fn extract(data: &[u8], list: &str) -> (r: Result<Extraction, TableError>)
    ensures
        outcome_view(r) == extract_outcome(data@, list@),
{
    let header = match read_header(data) {
        Ok(header) => header,
        Err(e) => {
            return Err(TableError::Parse(e));
        },
    };
    let columns = match resolve_columns(list, &header) {
        Ok(columns) => columns,
        Err(e) => {
            return Err(e);
        },
    };
    let rows = match read_records(data) {
        Ok(rows) => rows,
        Err(e) => {
            return Err(TableError::Parse(e));
        },
    };
    let table = Table { header, rows };
    let chosen = project(&table, &columns);
    match encode(&chosen) {
        Ok(bytes) => Ok(Extraction { bytes, columns: columns.len(), rows: table.rows.len() }),
        Err(e) => Err(e),
    }
}

/// All columns of a header of `n` entries, in header order.
pub open spec fn all_columns(n: nat) -> Seq<nat> {
    Seq::new(n, |k: int| k as nat)
}

/// Projecting onto all columns in header order keeps the header as it is and
/// gives every row the header's width: a row's fields stay in place, the
/// columns that a short row lacks come out as empty fields, and fields beyond
/// the header are left out. A row as wide as the header stays as it is.
pub proof fn lemma_full_projection(table: TableView)
    ensures
        projection(table, all_columns(table.header.len())).header == table.header,
        projection(table, all_columns(table.header.len())).rows.len() == table.rows.len(),
        forall|i: int|
            0 <= i < table.rows.len() ==> (#[trigger] projection(
                table,
                all_columns(table.header.len()),
            ).rows[i]).len() == table.header.len(),
        forall|i: int, c: int|
            0 <= i < table.rows.len() && 0 <= c < table.header.len() ==> #[trigger] projection(
                table,
                all_columns(table.header.len()),
            ).rows[i][c] == field_or_empty(table.rows[i], c),
        forall|i: int|
            0 <= i < table.rows.len() && table.rows[i].len() == table.header.len()
                ==> #[trigger] projection(table, all_columns(table.header.len())).rows[i]
                == table.rows[i],
{
    let full = projection(table, all_columns(table.header.len()));
    assert(full.header =~= table.header);
    assert forall|i: int|
        0 <= i < table.rows.len() && table.rows[i].len() == table.header.len() implies full.rows[i]
        == table.rows[i] by {
        assert(full.rows[i] =~= table.rows[i]);
    }
}

/// `rows`, each brought to the width `n`: fields beyond it are left out, and
/// empty fields stand for the ones that are missing.
pub open spec fn widened(rows: Seq<Seq<Seq<char>>>, n: nat) -> Seq<Seq<Seq<char>>> {
    Seq::new(rows.len(), |i: int| Seq::new(n, |c: int| field_or_empty(rows[i], c)))
}

/// Extracting all columns in header order writes the file again: the same
/// header, and every row with the same values in the same places, at the
/// header's width.
pub proof fn lemma_extract_all_columns(
    data: Seq<u8>,
    list: Seq<char>,
    header: Seq<Seq<char>>,
    rows: Seq<Seq<Seq<char>>>,
)
    ensures
        csv_header(data) == Some(header) && csv_records(data) == Some(rows) && resolved_all(
            references(list),
            header,
        ) == Ok::<Seq<nat>, ErrorView>(all_columns(header.len())) ==> extract_outcome(data, list)
            == match text_of(TableView { header, rows: widened(rows, header.len()) }) {
            Some(bytes) => Ok::<ExtractionView, ErrorView>(
                ExtractionView { bytes, columns: header.len(), rows: rows.len() },
            ),
            None => Err::<ExtractionView, ErrorView>(ErrorView::Write),
        },
{
    let table = TableView { header, rows };
    lemma_full_projection(table);
    let full = projection(table, all_columns(header.len()));
    assert(full.rows =~= widened(rows, header.len())) by {
        assert forall|i: int| 0 <= i < rows.len() implies #[trigger] full.rows[i] =~= widened(
            rows,
            header.len(),
        )[i] by {}
    }
    assert(full == TableView { header, rows: widened(rows, header.len()) });
}

/// Extraction is repeatable: two runs on the same file with the same column
/// list come to the same outcome, byte for byte.
pub proof fn lemma_extract_repeatable(
    data: Seq<u8>,
    list: Seq<char>,
    first: Result<Extraction, TableError>,
    second: Result<Extraction, TableError>,
)
    requires
        outcome_view(first) == extract_outcome(data, list),
        outcome_view(second) == extract_outcome(data, list),
    ensures
        outcome_view(first) == outcome_view(second),
        first is Ok <==> second is Ok,
        first is Ok ==> first->Ok_0.bytes@ == second->Ok_0.bytes@,
{
}

} // verus!

//! A numbered listing of a table, one line of text per row.

use vstd::prelude::*;
use vstd::string::*;
use crate::error::{ErrorView, TableError};
use crate::table::{parsed, Table, TableView};
use crate::text::{decimal, to_decimal};

verus! {

/// The longest field that is shown in full, in characters.
pub const FIELD_LIMIT: usize = 20;

/// How many characters are kept of a field that is cut.
pub const FIELD_KEPT: usize = 17;

/// The width that a row label is padded to.
pub const LABEL_WIDTH: usize = 5;

/// What stands between two fields of a line, and after the label.
pub open spec fn bar() -> Seq<char> {
    seq![' ', '|', ' ']
}

/// What marks a field as cut.
pub open spec fn dots() -> Seq<char> {
    seq!['.', '.', '.']
}

/// A field as a listing shows it: a field of more than 20 characters is cut
/// to its first 17, followed by three dots.
pub open spec fn shown(f: Seq<char>) -> Seq<char> {
    if f.len() > FIELD_LIMIT {
        f.take(FIELD_KEPT as int) + dots()
    } else {
        f
    }
}

/// The fields of a record as a listing shows them, with a bar between each
/// two.
pub open spec fn joined(fields: Seq<Seq<char>>) -> Seq<char>
    decreases fields.len(),
{
    if fields.len() == 0 {
        Seq::empty()
    } else if fields.len() == 1 {
        shown(fields[0])
    } else {
        joined(fields.drop_last()) + bar() + shown(fields.last())
    }
}

/// The label of a row: `H` for the header, the row's number for a data row.
pub open spec fn label(number: nat, is_header: bool) -> Seq<char> {
    if is_header {
        seq!['H']
    } else {
        decimal(number)
    }
}

/// `text`, with blanks before it where it is shorter than 5 characters.
pub open spec fn padded(text: Seq<char>) -> Seq<char> {
    if text.len() >= LABEL_WIDTH {
        text
    } else {
        Seq::new((LABEL_WIDTH - text.len()) as nat, |i: int| ' ') + text
    }
}

/// The line of a listing for one record: the padded label, a bar, and the
/// fields.
pub open spec fn record_line(fields: Seq<Seq<char>>, number: nat, is_header: bool) -> Seq<char> {
    padded(label(number, is_header)) + bar() + joined(fields)
}

/// Cuts a field to what a listing shows of it.
pub fn show(f: &str) -> (r: String)
    ensures
        r@ == shown(f@),
{
    if f.unicode_len() > FIELD_LIMIT {
        proof {
            reveal_strlit("...");
            assert("..."@ =~= dots());
        }
        f.substring_char(0, FIELD_KEPT).to_owned().concat("...")
    } else {
        f.to_owned()
    }
}

/// Renders one record as a line of a listing. `number` is the row's number;
/// it is not looked at for the header.
pub fn format_record(record: &Vec<String>, number: usize, is_header: bool) -> (line: String)
    ensures
        line@ == record_line(record.deep_view(), number as nat, is_header),
{
    let text = if is_header {
        proof {
            reveal_strlit("H");
            assert("H"@ =~= seq!['H']);
        }
        "H".to_owned()
    } else {
        to_decimal(number)
    };
    let width = text.as_str().unicode_len();
    let mut line = String::new();
    let mut blanks: usize = 0;
    proof {
        reveal_strlit(" ");
        reveal_strlit(" | ");
        assert(" | "@ =~= bar());
    }
    while width < LABEL_WIDTH && blanks < LABEL_WIDTH - width
        invariant
            width == text@.len(),
            width < LABEL_WIDTH ==> blanks <= LABEL_WIDTH - width,
            width >= LABEL_WIDTH ==> blanks == 0,
            line@ == Seq::new(blanks as nat, |i: int| ' '),
            " "@ == seq![' '],
        decreases LABEL_WIDTH - blanks,
    {
        line.append(" ");
        blanks += 1;
        proof {
            assert(line@ =~= Seq::new(blanks as nat, |i: int| ' '));
        }
    }
    line.append(text.as_str());
    line.append(" | ");
    proof {
        assert(line@ =~= padded(text@) + bar());
    }
    let ghost fields = record.deep_view();
    let ghost start = line@;
    let mut k: usize = 0;
    while k < record.len()
        invariant
            k <= record.len(),
            fields == record.deep_view(),
            " | "@ == bar(),
            line@ == start + joined(fields.take(k as int)),
        decreases record.len() - k,
    {
        proof {
            assert(fields.take(k + 1).drop_last() =~= fields.take(k as int));
            assert(fields.take(k + 1).last() == fields[k as int]);
        }
        if k > 0 {
            line.append(" | ");
        }
        let cell = show(record[k].as_str());
        line.append(cell.as_str());
        proof {
            assert(line@ =~= start + joined(fields.take(k + 1)));
        }
        k += 1;
    }
    proof {
        assert(fields.take(k as int) =~= fields);
    }
    line
}

/// A listing: the lines to show and the number of rows read.
#[derive(Debug)]
pub struct Listing {
    /// The header line, unless it was asked to be left out.
    pub header: Option<String>,
    /// The lines of the rows that are shown, in file order.
    pub rows: Vec<String>,
    /// The number of data rows of the file, shown or not.
    pub total: usize,
}

/// A [`Listing`] with its lines as sequences of characters.
pub struct ListingView {
    pub header: Option<Seq<char>>,
    pub rows: Seq<Seq<char>>,
    pub total: nat,
}

impl View for Listing {
    type V = ListingView;

    open spec fn view(&self) -> ListingView {
        ListingView {
            header: match self.header {
                Some(line) => Some(line@),
                None => None,
            },
            rows: self.rows.deep_view(),
            total: self.total as nat,
        }
    }
}

/// How many of `total` rows are shown under the limit `head`: all of them
/// where `head` is 0, else the first `head`.
pub open spec fn shown_count(total: nat, head: nat) -> nat {
    if head == 0 || head >= total {
        total
    } else {
        head
    }
}

/// The listing of `table` under the limit `head`. Rows are numbered from 1.
/// The rows beyond the limit are not shown, but they are counted.
pub open spec fn listing(table: TableView, head: nat, skip_header: bool) -> ListingView {
    ListingView {
        header: if skip_header {
            None
        } else {
            Some(record_line(table.header, 0, true))
        },
        rows: Seq::new(
            shown_count(table.rows.len(), head),
            |i: int| record_line(table.rows[i], (i + 1) as nat, false),
        ),
        total: table.rows.len(),
    }
}

/// Lists `table`: the header line unless `skip_header` is set, then the rows,
/// of which only the first `head` are shown where `head` is not 0.
pub fn list(table: &Table, head: usize, skip_header: bool) -> (out: Listing)
    ensures
        out@ == listing(table@, head as nat, skip_header),
{
    let header = if skip_header {
        None
    } else {
        Some(format_record(&table.header, 0, true))
    };
    let total = table.rows.len();
    let count = if head == 0 || head >= total {
        total
    } else {
        head
    };
    let mut rows: Vec<String> = Vec::new();
    let mut i: usize = 0;
    while i < count
        invariant
            i <= count <= table.rows.len(),
            rows@.len() == i,
            forall|j: int|
                0 <= j < i ==> (#[trigger] rows@[j])@ == record_line(
                    table@.rows[j],
                    (j + 1) as nat,
                    false,
                ),
        decreases count - i,
    {
        rows.push(format_record(&table.rows[i], i + 1, false));
        i += 1;
    }
    let out = Listing { header, rows, total };
    proof {
        assert(out@.rows =~= listing(table@, head as nat, skip_header).rows);
    }
    out
}

/// What [`read`] returns for the file `data`.
pub open spec fn read_outcome(data: Seq<u8>, head: nat, skip_header: bool) -> Result<
    ListingView,
    ErrorView,
> {
    match parsed(data) {
        Some(table) => Ok(listing(table, head, skip_header)),
        None => Err(ErrorView::Parse),
    }
}

/// Reads the file `data` and lists it.
pub fn read(data: &[u8], head: usize, skip_header: bool) -> (r: Result<Listing, TableError>)
    ensures
        match r {
            Ok(out) => read_outcome(data@, head as nat, skip_header) == Ok::<ListingView, ErrorView>(
                out@,
            ),
            Err(e) => read_outcome(data@, head as nat, skip_header) == Err::<ListingView, ErrorView>(
                e@,
            ),
        },
{
    match Table::parse(data) {
        Ok(table) => Ok(list(&table, head, skip_header)),
        Err(e) => Err(e),
    }
}

} // verus!

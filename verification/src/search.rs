//! Case-insensitive search for a term in one column.

use vstd::prelude::*;
use crate::codec::{csv_header, csv_records, read_header, read_records};
use crate::column::{positions, reference, resolve_column, resolved};
use crate::error::{ErrorView, TableError};
use crate::table::{field, field_at, Table, TableView};
use crate::text::{contains, lowered, occurs_at, occurs_in, to_lowercase};

verus! {

/// The row numbers `1, 2, .., n`.
pub open spec fn numbers(n: nat) -> Seq<nat> {
    Seq::new(n, |i: int| (i + 1) as nat)
}

/// Holds of the numbers of the rows whose cell is there and holds `needle`.
pub open spec fn holds(cells: Seq<Option<Seq<char>>>, needle: Seq<char>) -> spec_fn(nat) -> bool {
    |n: nat|
        1 <= n <= cells.len() && match cells[n - 1] {
            Some(cell) => occurs_in(needle, cell),
            None => false,
        }
}

/// Holds of the numbers of the rows that reach column `c`.
pub open spec fn reaches(rows: Seq<Seq<Seq<char>>>, c: int) -> spec_fn(nat) -> bool {
    |n: nat| 1 <= n <= rows.len() && field_at(rows[n - 1], c) is Some
}

/// The numbers, counted from 1 and in rising order, of the rows whose cell
/// holds `needle`. `cells` has one entry per row; a missing cell never
/// matches.
pub open spec fn selected(cells: Seq<Option<Seq<char>>>, needle: Seq<char>) -> Seq<nat> {
    numbers(cells.len()).filter(holds(cells, needle))
}

/// The cells of column `c`, one per row, each in lower case.
pub open spec fn lowered_cells(rows: Seq<Seq<Seq<char>>>, c: int) -> Seq<Option<Seq<char>>> {
    Seq::new(
        rows.len(),
        |i: int|
            match field_at(rows[i], c) {
                Some(f) => Some(lowered(f)),
                None => None,
            },
    )
}

/// The numbers, counted from 1 and in file order, of the rows whose field in
/// column `c` holds `term`, both taken in lower case. A row too short to
/// reach the column does not match.
pub open spec fn matching_rows(rows: Seq<Seq<Seq<char>>>, c: int, term: Seq<char>) -> Seq<nat> {
    selected(lowered_cells(rows, c), lowered(term))
}

/// The numbers, counted from 1 and in file order, of the rows that reach
/// column `c`.
pub open spec fn present_rows(rows: Seq<Seq<Seq<char>>>, c: int) -> Seq<nat> {
    numbers(rows.len()).filter(reaches(rows, c))
}

proof fn lemma_filter_alike(s: Seq<nat>, p: spec_fn(nat) -> bool, q: spec_fn(nat) -> bool)
    requires
        forall|i: int| 0 <= i < s.len() ==> p(#[trigger] s[i]) == q(s[i]),
    ensures
        s.filter(p) == s.filter(q),
    decreases s.len(),
{
    reveal(Seq::filter);
    if s.len() > 0 {
        lemma_filter_alike(s.drop_last(), p, q);
    }
}

/// The empty term is found in every row that reaches the column.
pub proof fn lemma_empty_term_matches_present(rows: Seq<Seq<Seq<char>>>, c: int)
    ensures
        matching_rows(rows, c, Seq::empty()) == present_rows(rows, c),
{
    let cells = lowered_cells(rows, c);
    let needle = lowered(Seq::<char>::empty());
    assert forall|i: int| 0 <= i < numbers(cells.len()).len() implies holds(cells, needle)(
        #[trigger] numbers(cells.len())[i],
    ) == reaches(rows, c)(numbers(cells.len())[i]) by {
        match cells[i] {
            Some(cell) => {
                assert(cell.subrange(0, 0) =~= needle);
                assert(occurs_at(needle, cell, 0));
            },
            None => {},
        }
    }
    lemma_filter_alike(numbers(cells.len()), holds(cells, needle), reaches(rows, c));
}

/// Picks the rows whose cell holds `needle`. `cells` has one entry per row,
/// `None` where the row has no such cell.
pub fn select(cells: &Vec<Option<String>>, needle: &str) -> (rows: Vec<usize>)
    ensures
        positions(rows@) == selected(cells.deep_view(), needle@),
        forall|k: int| 0 <= k < rows@.len() ==> 1 <= (#[trigger] rows@[k]) <= cells.len(),
{
    let ghost all = cells.deep_view();
    let mut rows: Vec<usize> = Vec::new();
    let mut i: usize = 0;
    proof {
        assert(numbers(0) =~= Seq::<nat>::empty());
        assert(positions(rows@) =~= Seq::<nat>::empty());
        reveal(Seq::filter);
    }
    while i < cells.len()
        invariant
            i <= cells.len(),
            all == cells.deep_view(),
            positions(rows@) == numbers(i as nat).filter(holds(all, needle@)),
            forall|k: int| 0 <= k < rows@.len() ==> 1 <= (#[trigger] rows@[k]) <= i,
        decreases cells.len() - i,
    {
        let ghost before = positions(rows@);
        proof {
            assert(numbers((i + 1) as nat) =~= numbers(i as nat).push((i + 1) as nat));
            numbers(i as nat).lemma_filter_push((i + 1) as nat, holds(all, needle@));
        }
        let hit = match &cells[i] {
            Some(cell) => contains(cell.as_str(), needle),
            None => false,
        };
        if hit {
            rows.push(i + 1);
            proof {
                assert(positions(rows@) =~= before.push((i + 1) as nat));
            }
        }
        i += 1;
    }
    rows
}

/// Finds the rows of `table` whose field in column `column` holds `term`,
/// without regard to case. The rows are given by their numbers, counted from
/// 1, in file order.
pub fn find_rows(table: &Table, column: usize, term: &str) -> (rows: Vec<usize>)
    ensures
        positions(rows@) == matching_rows(table@.rows, column as int, term@),
        term@.len() == 0 ==> positions(rows@) == present_rows(table@.rows, column as int),
        forall|k: int| 0 <= k < rows@.len() ==> 1 <= (#[trigger] rows@[k]) <= table.rows.len(),
{
    let needle = to_lowercase(term);
    let mut cells: Vec<Option<String>> = Vec::new();
    let mut i: usize = 0;
    while i < table.rows.len()
        invariant
            i <= table.rows.len(),
            cells@.len() == i,
            forall|j: int|
                0 <= j < i ==> (#[trigger] cells@[j]).deep_view() == lowered_cells(
                    table@.rows,
                    column as int,
                )[j],
        decreases table.rows.len() - i,
    {
        let cell = match field(&table.rows[i], column) {
            Some(f) => Some(to_lowercase(f.as_str())),
            None => None,
        };
        cells.push(cell);
        i += 1;
    }
    proof {
        assert(cells.deep_view() =~= lowered_cells(table@.rows, column as int));
        lemma_empty_term_matches_present(table@.rows, column as int);
        if term@.len() == 0 {
            assert(term@ =~= Seq::<char>::empty());
        }
    }
    select(&cells, needle.as_str())
}

/// The outcome of a search.
#[derive(Debug)]
pub struct Search {
    /// The table that was searched.
    pub table: Table,
    /// The column that was searched, as a position in the header.
    pub column: usize,
    /// The numbers of the matching rows, counted from 1, in file order.
    pub rows: Vec<usize>,
}

/// A [`Search`] with its text as sequences of characters.
pub struct SearchView {
    pub table: TableView,
    pub column: nat,
    pub rows: Seq<nat>,
}

impl View for Search {
    type V = SearchView;

    open spec fn view(&self) -> SearchView {
        SearchView { table: self.table@, column: self.column as nat, rows: positions(self.rows@) }
    }
}

/// What [`find`] returns for the file `data`, the column reference `column`
/// and the search term `term`. The header is read first, then the reference
/// is resolved against it, and only then are the rows read and searched.
pub open spec fn find_outcome(data: Seq<u8>, column: Seq<char>, term: Seq<char>) -> Result<
    SearchView,
    ErrorView,
> {
    match csv_header(data) {
        None => Err(ErrorView::Parse),
        Some(header) => match resolved(reference(column), header) {
            Err(e) => Err(e),
            Ok(c) => match csv_records(data) {
                None => Err(ErrorView::Parse),
                Some(rows) => Ok(
                    SearchView {
                        table: TableView { header, rows },
                        column: c,
                        rows: matching_rows(rows, c as int, term),
                    },
                ),
            },
        },
    }
}

/// Reads the file `data`, resolves `column` against its header and finds the
/// rows whose field in that column holds `term`, without regard to case.
pub fn find(data: &[u8], column: &str, term: &str) -> (r: Result<Search, TableError>)
    ensures
        match r {
            Ok(found) => {
                &&& find_outcome(data@, column@, term@) == Ok::<SearchView, ErrorView>(found@)
                &&& term@.len() == 0 ==> found@.rows == present_rows(
                    found@.table.rows,
                    found@.column as int,
                )
                &&& found.column < found.table.header.len()
                &&& forall|k: int|
                    0 <= k < found.rows@.len() ==> 1 <= (#[trigger] found.rows@[k])
                        <= found.table.rows.len()
            },
            Err(e) => find_outcome(data@, column@, term@) == Err::<SearchView, ErrorView>(e@),
        },
{
    let header = match read_header(data) {
        Ok(header) => header,
        Err(e) => {
            return Err(TableError::Parse(e));
        },
    };
    let c = match resolve_column(column, &header) {
        Ok(c) => c,
        Err(e) => {
            return Err(e);
        },
    };
    let rows = match read_records(data) {
        Ok(rows) => rows,
        Err(e) => {
            return Err(TableError::Parse(e));
        },
    };
    let table = Table { header, rows };
    let rows = find_rows(&table, c, term);
    Ok(Search { table, column: c, rows })
}

} // verus!

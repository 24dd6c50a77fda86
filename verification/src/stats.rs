//! Descriptive statistics of a table.

use vstd::hash_map::StringHashMap;
use vstd::prelude::*;
use crate::error::{ErrorView, TableError};
use crate::listing::read_outcome;
use crate::table::{field, field_at, parsed, Table, TableView};

verus! {

/// Statistics of one column.
#[derive(Debug)]
pub struct ColumnStats {
    /// The column's name in the header.
    pub name: String,
    /// How many different values the column holds.
    pub distinct: usize,
    /// The most frequent value and how often it occurs; `None` for a column
    /// without values.
    pub most_common: Option<(String, usize)>,
}

/// Statistics of a whole table.
#[derive(Debug)]
pub struct Stats {
    /// Number of data rows.
    pub row_count: usize,
    /// Number of columns in the header.
    pub column_count: usize,
    /// Number of fields of zero length in the data rows, capped at
    /// `usize::MAX`.
    pub empty_cells: usize,
    /// One entry per column of the header, in header order.
    pub columns: Vec<ColumnStats>,
}

/// A [`ColumnStats`] with its text as sequences of characters.
pub struct ColumnStatsView {
    pub name: Seq<char>,
    pub distinct: nat,
    pub most_common: Option<(Seq<char>, nat)>,
}

/// A [`Stats`] with its text as sequences of characters.
pub struct StatsView {
    pub row_count: nat,
    pub column_count: nat,
    pub empty_cells: nat,
    pub columns: Seq<ColumnStatsView>,
}

impl View for ColumnStats {
    type V = ColumnStatsView;

    open spec fn view(&self) -> ColumnStatsView {
        ColumnStatsView {
            name: self.name@,
            distinct: self.distinct as nat,
            most_common: match self.most_common {
                Some((value, count)) => Some((value@, count as nat)),
                None => None,
            },
        }
    }
}

impl View for Stats {
    type V = StatsView;

    open spec fn view(&self) -> StatsView {
        StatsView {
            row_count: self.row_count as nat,
            column_count: self.column_count as nat,
            empty_cells: self.empty_cells as nat,
            columns: Seq::new(self.columns@.len(), |i: int| self.columns@[i]@),
        }
    }
}

/// The values that column `c` holds, in row order. A row too short to reach
/// the column contributes nothing.
pub open spec fn column_values(rows: Seq<Seq<Seq<char>>>, c: int) -> Seq<Seq<char>> {
    rows.filter_map(cell(c))
}

/// Picks the field at `c` out of a row.
pub open spec fn cell(c: int) -> spec_fn(Seq<Seq<char>>) -> Option<Seq<char>> {
    |row: Seq<Seq<char>>| field_at(row, c)
}

/// How often `v` occurs in `vals`.
pub open spec fn occurrences(vals: Seq<Seq<char>>, v: Seq<char>) -> nat {
    vals.filter(equals(v)).len()
}

/// Holds of the values equal to `v`.
pub open spec fn equals(v: Seq<char>) -> spec_fn(Seq<char>) -> bool {
    |y: Seq<char>| y == v
}

/// The number of fields of zero length in `rows`.
pub open spec fn empty_fields(rows: Seq<Seq<Seq<char>>>) -> nat {
    rows.flatten().filter(is_empty()).len()
}

/// Holds of the fields of zero length.
pub open spec fn is_empty() -> spec_fn(Seq<char>) -> bool {
    |f: Seq<char>| f.len() == 0
}

/// The most frequent value of `vals` with its number of occurrences. Among
/// values that occur equally often, the one whose count got there first in
/// a scan from the front wins.
pub open spec fn most_common(vals: Seq<Seq<char>>) -> Option<(Seq<char>, nat)>
    decreases vals.len(),
{
    if vals.len() == 0 {
        None
    } else {
        let n = occurrences(vals, vals.last());
        match most_common(vals.drop_last()) {
            Some((v, m)) => if m >= n { Some((v, m)) } else { Some((vals.last(), n)) },
            None => Some((vals.last(), n)),
        }
    }
}

/// How often the value at position `j` of `vals` has occurred once the scan
/// has passed that position.
pub open spec fn count_at(vals: Seq<Seq<char>>, j: int) -> nat {
    occurrences(vals.take(j + 1), vals[j])
}

/// The statistics of the column named `name` that holds `vals`.
pub open spec fn column_summary(name: Seq<char>, vals: Seq<Seq<char>>) -> ColumnStatsView {
    ColumnStatsView { name, distinct: vals.to_set().len(), most_common: most_common(vals) }
}

/// `n`, or `usize::MAX` where `n` is larger.
pub open spec fn capped(n: nat) -> nat {
    if n <= usize::MAX {
        n
    } else {
        usize::MAX as nat
    }
}

/// The statistics of `table`.
pub open spec fn summary(table: TableView) -> StatsView {
    StatsView {
        row_count: table.rows.len(),
        column_count: table.header.len(),
        empty_cells: capped(empty_fields(table.rows)),
        columns: Seq::new(
            table.header.len(),
            |c: int| column_summary(table.header[c], column_values(table.rows, c)),
        ),
    }
}

proof fn lemma_column_values_step(rows: Seq<Seq<Seq<char>>>, c: int, i: int)
    requires
        0 <= i < rows.len(),
    ensures
        column_values(rows.take(i + 1), c) == match field_at(rows[i], c) {
            Some(f) => column_values(rows.take(i), c).push(f),
            None => column_values(rows.take(i), c),
        },
{
    rows.lemma_filter_map_take_succ(cell(c), i);
}

proof fn lemma_occurrences_push(vals: Seq<Seq<char>>, x: Seq<char>, v: Seq<char>)
    ensures
        occurrences(vals.push(x), v) == occurrences(vals, v) + if x == v { 1nat } else { 0nat },
{
    vals.lemma_filter_len_push(equals(v), x);
}

proof fn lemma_empty_fields_step(rows: Seq<Seq<Seq<char>>>, i: int)
    requires
        0 <= i < rows.len(),
    ensures
        empty_fields(rows.take(i + 1)) == empty_fields(rows.take(i)) + rows[i].filter(
            is_empty(),
        ).len(),
{
    rows.lemma_take_succ_push(i);
    rows.take(i).lemma_flatten_push(rows[i]);
    Seq::filter_distributes_over_add(rows.take(i).flatten(), rows[i], is_empty());
}

/// The number of fields of zero length in one record.
fn empty_in(record: &Vec<String>) -> (n: usize)
    ensures
        n == record.deep_view().filter(is_empty()).len(),
{
    let ghost fields = record.deep_view();
    let mut n: usize = 0;
    let mut j: usize = 0;
    while j < record.len()
        invariant
            j <= record.len(),
            fields == record.deep_view(),
            n == fields.take(j as int).filter(is_empty()).len(),
            n <= j,
        decreases record.len() - j,
    {
        proof {
            fields.lemma_take_succ_push(j as int);
            fields.take(j as int).lemma_filter_len_push(is_empty(), fields[j as int]);
        }
        if record[j].as_str().is_empty() {
            n += 1;
        }
        j += 1;
    }
    proof {
        fields.lemma_take_len();
    }
    n
}

/// The number of fields of zero length in `rows`, capped at `usize::MAX`.
pub fn count_empty(rows: &Vec<Vec<String>>) -> (n: usize)
    ensures
        n == capped(empty_fields(rows.deep_view())),
{
    let ghost all = rows.deep_view();
    let mut n: usize = 0;
    let mut i: usize = 0;
    proof {
        assert(all.take(0).flatten() =~= Seq::<Seq<char>>::empty());
    }
    while i < rows.len()
        invariant
            i <= rows.len(),
            all == rows.deep_view(),
            n == capped(empty_fields(all.take(i as int))),
        decreases rows.len() - i,
    {
        let e = empty_in(&rows[i]);
        proof {
            lemma_empty_fields_step(all, i as int);
        }
        if e > usize::MAX - n {
            n = usize::MAX;
        } else {
            n += e;
        }
        i += 1;
    }
    proof {
        all.lemma_take_len();
    }
    n
}

/// The most frequent value is the first one whose count reaches the largest
/// number of occurrences of any value: no value occurs more often, and no
/// count gets as high at an earlier position.
pub proof fn lemma_most_common_reaches_maximum_first(vals: Seq<Seq<char>>)
    ensures
        vals.len() == 0 ==> most_common(vals) is None,
        vals.len() > 0 ==> exists|j: int|
            {
                &&& 0 <= j < vals.len()
                &&& most_common(vals) == Some((vals[j], #[trigger] count_at(vals, j)))
                &&& count_at(vals, j) == occurrences(vals, vals[j])
                &&& forall|w: Seq<char>| #[trigger] occurrences(vals, w) <= count_at(vals, j)
                &&& forall|k: int| 0 <= k < vals.len() ==> #[trigger] count_at(vals, k) <= count_at(vals, j)
                &&& forall|k: int| 0 <= k < j ==> #[trigger] count_at(vals, k) < count_at(vals, j)
            },
    decreases vals.len(),
{
    if vals.len() > 0 {
        let prev = vals.drop_last();
        let last = vals.last();
        let end = vals.len() - 1;
        let n = occurrences(vals, last);
        assert(vals =~= prev.push(last));
        assert(vals.take(end + 1) =~= vals);
        assert forall|w: Seq<char>| #[trigger] occurrences(vals, w) == occurrences(prev, w) + if last == w {
            1nat
        } else {
            0nat
        } by {
            lemma_occurrences_push(prev, last, w);
        }
        assert forall|k: int| 0 <= k < end implies #[trigger] count_at(vals, k) == count_at(prev, k) by {
            assert(vals.take(k + 1) =~= prev.take(k + 1));
        }
        lemma_most_common_reaches_maximum_first(prev);
        if prev.len() == 0 {
            assert(count_at(vals, end) == n);
        } else {
            let j0 = choose|j: int|
                {
                    &&& 0 <= j < prev.len()
                    &&& most_common(prev) == Some((prev[j], #[trigger] count_at(prev, j)))
                    &&& count_at(prev, j) == occurrences(prev, prev[j])
                    &&& forall|w: Seq<char>| #[trigger] occurrences(prev, w) <= count_at(prev, j)
                    &&& forall|k: int| 0 <= k < prev.len() ==> #[trigger] count_at(prev, k) <= count_at(prev, j)
                    &&& forall|k: int| 0 <= k < j ==> #[trigger] count_at(prev, k) < count_at(prev, j)
                };
            let m = count_at(prev, j0);
            if m >= n {
                assert(count_at(vals, j0) == m);
                assert(occurrences(vals, vals[j0]) == m);
            } else {
                assert(count_at(vals, end) == n);
            }
        }
    }
}

proof fn lemma_occurrences_absent(vals: Seq<Seq<char>>, v: Seq<char>)
    requires
        !vals.contains(v),
    ensures
        occurrences(vals, v) == 0,
{
    let hits = vals.filter(equals(v));
    if hits.len() > 0 {
        vals.lemma_filter_pred(equals(v), 0);
        vals.lemma_filter_contains_rev(equals(v), hits[0]);
    }
}

/// A tally of `vals`: every value that occurs, with the number of times it
/// does.
spec fn is_tally(tally: Map<Seq<char>, usize>, vals: Seq<Seq<char>>) -> bool {
    &&& tally.dom() == vals.to_set()
    &&& forall|v: Seq<char>| #[trigger]
        tally.dom().contains(v) ==> tally[v] == occurrences(vals, v)
}

/// The statistics of column `c` of `rows`, under the name `name`.
pub fn column_stats(name: &String, rows: &Vec<Vec<String>>, c: usize) -> (s: ColumnStats)
    ensures
        s@ == column_summary(name@, column_values(rows.deep_view(), c as int)),
{
    let ghost all = rows.deep_view();
    let mut tally: StringHashMap<usize> = StringHashMap::new();
    let mut best_row: usize = 0;
    let mut best_count: usize = 0;
    let mut i: usize = 0;
    proof {
        assert(column_values(all.take(0), c as int).to_set() =~= Set::<Seq<char>>::empty());
        assert(tally@.dom() =~= Set::<Seq<char>>::empty());
    }
    while i < rows.len()
        invariant
            i <= rows.len(),
            all == rows.deep_view(),
            is_tally(tally@, column_values(all.take(i as int), c as int)),
            column_values(all.take(i as int), c as int).len() <= i,
            best_count == 0 ==> most_common(column_values(all.take(i as int), c as int)) is None,
            best_count > 0 ==> best_row < i && c < rows[best_row as int].len() && most_common(
                column_values(all.take(i as int), c as int),
            ) == Some((all[best_row as int][c as int], best_count as nat)),
        decreases rows.len() - i,
    {
        let ghost vals = column_values(all.take(i as int), c as int);
        proof {
            lemma_column_values_step(all, c as int, i as int);
        }
        match field(&rows[i], c) {
            None => {},
            Some(f) => {
                let ghost next = vals.push(f@);
                let ghost before = tally@;
                proof {
                    assert(next.drop_last() =~= vals);
                    vals.lemma_push_to_set_commute(f@);
                    vals.lemma_filter_len(equals(f@));
                    if !vals.contains(f@) {
                        lemma_occurrences_absent(vals, f@);
                    }
                    assert forall|v: Seq<char>| #[trigger]
                        occurrences(next, v) == occurrences(vals, v) + if f@ == v {
                            1nat
                        } else {
                            0nat
                        } by {
                        lemma_occurrences_push(vals, f@, v);
                    }
                }
                let n: usize = match tally.get(f.as_str()) {
                    Some(seen) => *seen + 1,
                    None => 1,
                };
                tally.insert(f.clone(), n);
                proof {
                    assert(tally@.dom() =~= next.to_set());
                    assert forall|v: Seq<char>| #[trigger]
                        tally@.dom().contains(v) implies tally@[v] == occurrences(next, v) by {
                        if v != f@ {
                            assert(before.dom().contains(v));
                        }
                    }
                }
                if n > best_count {
                    best_row = i;
                    best_count = n;
                }
            },
        }
        i += 1;
    }
    proof {
        all.lemma_take_len();
    }
    let most_common = if best_count == 0 {
        None
    } else {
        Some((rows[best_row][c].clone(), best_count))
    };
    ColumnStats { name: name.clone(), distinct: tally.len(), most_common }
}

/// The statistics of `table`.
pub fn summarize(table: &Table) -> (s: Stats)
    ensures
        s@ == summary(table@),
{
    let empty_cells = count_empty(&table.rows);
    let mut columns: Vec<ColumnStats> = Vec::new();
    let mut c: usize = 0;
    while c < table.header.len()
        invariant
            c <= table.header.len(),
            columns@.len() == c,
            forall|k: int|
                0 <= k < c ==> (#[trigger] columns@[k])@ == column_summary(
                    table@.header[k],
                    column_values(table@.rows, k),
                ),
        decreases table.header.len() - c,
    {
        columns.push(column_stats(&table.header[c], &table.rows, c));
        c += 1;
    }
    let s = Stats {
        row_count: table.rows.len(),
        column_count: table.header.len(),
        empty_cells,
        columns,
    };
    proof {
        assert(s@.columns =~= summary(table@).columns);
    }
    s
}

/// What [`stats`] returns for the file `data`.
pub open spec fn stats_outcome(data: Seq<u8>) -> Result<StatsView, ErrorView> {
    match parsed(data) {
        Some(table) => Ok(summary(table)),
        None => Err(ErrorView::Parse),
    }
}

/// Reads the file `data` and computes its statistics.
pub fn stats(data: &[u8]) -> (r: Result<Stats, TableError>)
    ensures
        match r {
            Ok(s) => stats_outcome(data@) == Ok::<StatsView, ErrorView>(s@),
            Err(e) => stats_outcome(data@) == Err::<StatsView, ErrorView>(e@),
        },
{
    match Table::parse(data) {
        Ok(table) => Ok(summarize(&table)),
        Err(e) => Err(e),
    }
}

/// The statistics of a file count as many rows as its listing does, whatever
/// the listing shows of them; and the one fails exactly where the other does.
pub proof fn lemma_row_counts_agree(data: Seq<u8>, head: nat, skip_header: bool)
    ensures
        stats_outcome(data) is Ok <==> read_outcome(data, head, skip_header) is Ok,
        stats_outcome(data) is Ok ==> stats_outcome(data)->Ok_0.row_count == read_outcome(
            data,
            head,
            skip_header,
        )->Ok_0.total,
{
}

/// `part` out of `whole` in units of one `scale`-th, to the nearest unit;
/// 0 where `whole` is 0. A value just halfway between two units goes to the
/// even one, as it does when a number is printed to a given precision.
pub open spec fn ratio(part: nat, whole: nat, scale: nat) -> nat {
    if whole == 0 {
        0
    } else {
        let n = part * scale;
        let below = n / whole;
        let twice = 2 * (n % whole);
        if twice > whole || (twice == whole && below % 2 == 1) {
            below + 1
        } else {
            below
        }
    }
}

/// `part` out of `whole` in units of one `scale`-th, to the nearest unit,
/// halves to the even unit; 0 where `whole` is 0.
pub fn share(part: usize, whole: u128, scale: u16) -> (r: u128)
    ensures
        r == ratio(part as nat, whole as nat, scale as nat),
{
    if whole == 0 {
        return 0;
    }
    assert(part * scale <= 0xffff_ffff_ffff_ffff * 0xffff) by (nonlinear_arith)
        requires
            part <= 0xffff_ffff_ffff_ffff,
            scale <= 0xffff,
    ;
    let n: u128 = (part as u128) * (scale as u128);
    let below: u128 = n / whole;
    let rest: u128 = n % whole;
    let other: u128 = whole - rest;
    if rest > other || (rest == other && below % 2 == 1) {
        below + 1
    } else {
        below
    }
}

impl Stats {
    /// The number of cells that a table of full rows would hold.
    pub open spec fn cells(&self) -> nat {
        (self.row_count * self.column_count) as nat
    }

    /// The empty cells as a share of `row_count * column_count`, in
    /// hundredths of a percent; 0 for a table without cells.
    pub fn empty_percent(&self) -> (r: u128)
        ensures
            r == ratio(self.empty_cells as nat, self.cells(), 10_000),
    {
        assert(self.row_count * self.column_count <= 0xffff_ffff_ffff_ffff * 0xffff_ffff_ffff_ffff)
            by (nonlinear_arith)
            requires
                self.row_count <= 0xffff_ffff_ffff_ffff,
                self.column_count <= 0xffff_ffff_ffff_ffff,
        ;
        let cells: u128 = (self.row_count as u128) * (self.column_count as u128);
        share(self.empty_cells, cells, 10_000)
    }

    /// The occurrences of the most frequent value of column `c` as a share of
    /// the rows, in tenths of a percent; `None` where the column has no
    /// value or the table no such column.
    pub fn most_common_percent(&self, c: usize) -> (r: Option<u128>)
        ensures
            match r {
                Some(share) => c < self.columns@.len() && match self.columns@[c as int].most_common {
                    Some((_, n)) => share == ratio(n as nat, self.row_count as nat, 1_000),
                    None => false,
                },
                None => c >= self.columns@.len() || self.columns@[c as int].most_common is None,
            },
    {
        if c < self.columns.len() {
            match &self.columns[c].most_common {
                Some((_, n)) => Some(share(*n, self.row_count as u128, 1_000)),
                None => None,
            }
        } else {
            None
        }
    }
}

} // verus!

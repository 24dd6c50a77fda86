//! References to columns, by index or by name, and their resolution against
//! a header.

use vstd::prelude::*;
use crate::error::{ErrorView, TableError};
use crate::text::{index_value, parse_index, pieces, split, trim, trimmed};

verus! {

/// A reference to a column as a user writes it: a number is an index from
/// zero, anything else a name.
#[derive(Debug)]
pub enum ColumnRef {
    ByIndex(usize),
    ByName(String),
}

/// A [`ColumnRef`] with its name as a sequence of characters.
pub enum ColumnRefView {
    ByIndex(nat),
    ByName(Seq<char>),
}

impl View for ColumnRef {
    type V = ColumnRefView;

    open spec fn view(&self) -> ColumnRefView {
        match self {
            ColumnRef::ByIndex(i) => ColumnRefView::ByIndex(*i as nat),
            ColumnRef::ByName(name) => ColumnRefView::ByName(name@),
        }
    }
}

/// The reference that `token` stands for.
pub open spec fn reference(token: Seq<char>) -> ColumnRefView {
    match index_value(token) {
        Some(i) => ColumnRefView::ByIndex(i as nat),
        None => ColumnRefView::ByName(token),
    }
}

/// The position of the first entry of `header` that equals `name`.
pub open spec fn first_position(header: Seq<Seq<char>>, name: Seq<char>) -> Option<nat>
    decreases header.len(),
{
    if header.len() == 0 {
        None
    } else if header.first() == name {
        Some(0)
    } else {
        match first_position(header.drop_first(), name) {
            Some(i) => Some(i + 1),
            None => None,
        }
    }
}

/// The column of `header` that `column` refers to, or why there is none.
pub open spec fn resolved(column: ColumnRefView, header: Seq<Seq<char>>) -> Result<nat, ErrorView> {
    match column {
        ColumnRefView::ByIndex(index) => if index < header.len() {
            Ok(index)
        } else {
            Err(ErrorView::OutOfRange { index, len: header.len() })
        },
        ColumnRefView::ByName(name) => match first_position(header, name) {
            Some(i) => Ok(i),
            None => Err(ErrorView::ColumnNotFound(name)),
        },
    }
}

/// The references that a comma-separated list holds: its parts, each without
/// the whitespace around it.
pub open spec fn references(list: Seq<char>) -> Seq<ColumnRefView> {
    pieces(list, ',').map_values(|part: Seq<char>| reference(trimmed(part)))
}

/// The columns of `header` that `columns` refer to, in the given order, or
/// the reason why the first one that has none has none.
pub open spec fn resolved_all(columns: Seq<ColumnRefView>, header: Seq<Seq<char>>) -> Result<
    Seq<nat>,
    ErrorView,
>
    decreases columns.len(),
{
    if columns.len() == 0 {
        Ok(Seq::empty())
    } else {
        match resolved_all(columns.drop_last(), header) {
            Err(e) => Err(e),
            Ok(indices) => match resolved(columns.last(), header) {
                Err(e) => Err(e),
                Ok(i) => Ok(indices.push(i)),
            },
        }
    }
}

/// `first_position` finds the first match: the entry at the position it
/// gives equals `name` and no entry before it does; it gives none exactly
/// where no entry equals `name`.
pub proof fn lemma_first_position(header: Seq<Seq<char>>, name: Seq<char>)
    ensures
        match first_position(header, name) {
            Some(i) => i < header.len() && header[i as int] == name && forall|j: int|
                0 <= j < i ==> header[j] != name,
            None => forall|j: int| 0 <= j < header.len() ==> header[j] != name,
        },
    decreases header.len(),
{
    if header.len() > 0 && header.first() != name {
        let rest = header.drop_first();
        lemma_first_position(rest, name);
        assert forall|j: int| 1 <= j < header.len() implies header[j] == rest[j - 1] by {}
        match first_position(rest, name) {
            Some(i) => {
                assert forall|j: int| 0 <= j < i + 1 implies header[j] != name by {
                    if j > 0 {
                        assert(rest[j - 1] != name);
                    }
                }
            },
            None => {
                assert forall|j: int| 0 <= j < header.len() implies header[j] != name by {
                    if j > 0 {
                        assert(rest[j - 1] != name);
                    }
                }
            },
        }
    }
}

impl ColumnRef {
    /// Reads a reference: a token that denotes an index is one, any other
    /// token is a name.
    pub fn parse(token: &str) -> (r: ColumnRef)
        ensures
            r@ == reference(token@),
    {
        match parse_index(token) {
            Some(i) => ColumnRef::ByIndex(i),
            None => ColumnRef::ByName(token.to_owned()),
        }
    }

    /// Finds the column of `header` that the reference points to. An index
    /// must lie within the header; a name stands for the first column that
    /// bears it.
    pub fn resolve(&self, header: &Vec<String>) -> (r: Result<usize, TableError>)
        ensures
            match r {
                Ok(i) => i < header.len() && resolved(self@, header.deep_view()) == Ok::<
                    nat,
                    ErrorView,
                >(i as nat),
                Err(e) => resolved(self@, header.deep_view()) == Err::<nat, ErrorView>(e@),
            },
    {
        match self {
            ColumnRef::ByIndex(index) => {
                if *index < header.len() {
                    Ok(*index)
                } else {
                    Err(TableError::OutOfRange { index: *index, len: header.len() })
                }
            },
            ColumnRef::ByName(name) => {
                let ghost names = header.deep_view();
                let mut i: usize = 0;
                while i < header.len()
                    invariant
                        i <= header.len(),
                        names == header.deep_view(),
                        self@ == ColumnRefView::ByName(name@),
                        forall|j: int| 0 <= j < i ==> names[j] != name@,
                    decreases header.len() - i,
                {
                    if header[i] == *name {
                        proof {
                            lemma_first_position(names, name@);
                            assert(names[i as int] == name@);
                        }
                        return Ok(i);
                    }
                    i += 1;
                }
                proof {
                    lemma_first_position(names, name@);
                }
                Err(TableError::ColumnNotFound(name.clone()))
            },
        }
    }
}

/// Resolves one reference, written as a token, against `header`.
pub fn resolve_column(token: &str, header: &Vec<String>) -> (r: Result<usize, TableError>)
    ensures
        match r {
            Ok(i) => i < header.len() && resolved(reference(token@), header.deep_view()) == Ok::<
                nat,
                ErrorView,
            >(i as nat),
            Err(e) => resolved(reference(token@), header.deep_view()) == Err::<nat, ErrorView>(e@),
        },
{
    ColumnRef::parse(token).resolve(header)
}

/// The positions that a vector of indices holds.
pub open spec fn positions(indices: Seq<usize>) -> Seq<nat> {
    Seq::new(indices.len(), |k: int| indices[k] as nat)
}

proof fn lemma_error_stays(columns: Seq<ColumnRefView>, header: Seq<Seq<char>>, k: int)
    requires
        0 <= k <= columns.len(),
        resolved_all(columns.take(k), header) is Err,
    ensures
        resolved_all(columns, header) == resolved_all(columns.take(k), header),
    decreases columns.len() - k,
{
    if k < columns.len() {
        assert(columns.take(k + 1).drop_last() =~= columns.take(k));
        lemma_error_stays(columns, header, k + 1);
    } else {
        assert(columns.take(k) =~= columns);
    }
}

/// Resolves a comma-separated list of references against `header`. The
/// whitespace around each reference is dropped. The same column may be asked
/// for more than once. The first reference that fails decides the error.
pub fn resolve_columns(list: &str, header: &Vec<String>) -> (r: Result<Vec<usize>, TableError>)
    ensures
        match r {
            Ok(indices) => {
                &&& resolved_all(references(list@), header.deep_view()) == Ok::<Seq<nat>, ErrorView>(
                    positions(indices@),
                )
                &&& indices@.len() == pieces(list@, ',').len()
                &&& forall|k: int| 0 <= k < indices@.len() ==> (#[trigger] indices@[k]) < header.len()
            },
            Err(e) => resolved_all(references(list@), header.deep_view()) == Err::<Seq<nat>, ErrorView>(
                e@,
            ),
        },
{
    let parts = split(list, ',');
    let ghost columns = references(list@);
    let ghost names = header.deep_view();
    let mut indices: Vec<usize> = Vec::new();
    let mut i: usize = 0;
    proof {
        assert(columns.take(0) =~= Seq::<ColumnRefView>::empty());
        assert(positions(indices@) =~= Seq::<nat>::empty());
    }
    while i < parts.len()
        invariant
            i <= parts.len(),
            indices@.len() == i,
            parts.deep_view() == pieces(list@, ','),
            columns == references(list@),
            names == header.deep_view(),
            resolved_all(columns.take(i as int), names) == Ok::<Seq<nat>, ErrorView>(
                positions(indices@),
            ),
            forall|k: int| 0 <= k < indices@.len() ==> (#[trigger] indices@[k]) < header.len(),
        decreases parts.len() - i,
    {
        let ghost before = positions(indices@);
        proof {
            assert(columns.take(i + 1).drop_last() =~= columns.take(i as int));
            assert(columns.take(i + 1).last() == reference(trimmed(parts.deep_view()[i as int])));
        }
        match resolve_column(trim(parts[i].as_str()), header) {
            Ok(c) => {
                indices.push(c);
                proof {
                    assert(positions(indices@) =~= before.push(c as nat));
                }
            },
            Err(e) => {
                proof {
                    lemma_error_stays(columns, names, i + 1);
                }
                return Err(e);
            },
        }
        i += 1;
    }
    proof {
        assert(columns.take(i as int) =~= columns);
    }
    Ok(indices)
}

/// A name and a number that denote the same column resolve alike: where a
/// name is found at position `i` of the header and a token denotes the index
/// `i`, both resolve to `i`.
pub proof fn lemma_name_and_index_agree(
    header: Seq<Seq<char>>,
    name: Seq<char>,
    number: Seq<char>,
    i: nat,
)
    requires
        index_value(name) is None,
        first_position(header, name) == Some(i),
        index_value(number) == Some(i as usize),
        i <= usize::MAX,
    ensures
        resolved(reference(name), header) == Ok::<nat, ErrorView>(i),
        resolved(reference(number), header) == resolved(reference(name), header),
{
    lemma_first_position(header, name);
}

} // verus!

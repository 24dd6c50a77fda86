//! The ways an operation on a table can fail.

use vstd::prelude::*;

verus! {

/// Failure of an operation.
#[derive(Debug)]
pub enum TableError {
    /// The input is not well-formed comma-separated text.
    Parse(csv::Error),
    /// A column was referred to by a name that the header does not hold.
    ColumnNotFound(String),
    /// A column was referred to by an index that the header does not reach.
    OutOfRange { index: usize, len: usize },
    /// A record could not be written out.
    Write(csv::Error),
}

/// What a [`TableError`] says, without the detail that only the `csv` crate
/// knows.
pub enum ErrorView {
    Parse,
    ColumnNotFound(Seq<char>),
    OutOfRange { index: nat, len: nat },
    Write,
}

impl View for TableError {
    type V = ErrorView;

    open spec fn view(&self) -> ErrorView {
        match self {
            TableError::Parse(_) => ErrorView::Parse,
            TableError::ColumnNotFound(name) => ErrorView::ColumnNotFound(name@),
            TableError::OutOfRange { index, len } => ErrorView::OutOfRange {
                index: *index as nat,
                len: *len as nat,
            },
            TableError::Write(_) => ErrorView::Write,
        }
    }
}

} // verus!

use vstd::prelude::*;

verus! {

/// Why a table could not be rendered.
#[derive(Debug, Clone)]
pub enum TableError {
    /// A row whose number of cells differs from the first row's.
    InvalidTableSize { row: usize, expected: usize, actual: usize },
    /// A cell at column `x` of row `y` spans `merge` further columns where the
    /// row has only `max` to its right.
    MergeOutOfTable { x: usize, y: usize, merge: usize, max: usize },
    /// A spanning cell would cover the non-empty cell at column `x` of row `y`.
    MergeOverwrite { x: usize, y: usize },
    /// The output sink refused a write.
    WriteError(String),
    /// An assumption of the renderer did not hold.
    Unexpected(String),
}

/// The abstract value of a [`TableError`]: messages as character sequences.
pub enum ErrorView {
    InvalidTableSize { row: usize, expected: usize, actual: usize },
    MergeOutOfTable { x: usize, y: usize, merge: usize, max: usize },
    MergeOverwrite { x: usize, y: usize },
    WriteError(Seq<char>),
    Unexpected(Seq<char>),
}

impl View for TableError {
    type V = ErrorView;

    open spec fn view(&self) -> ErrorView {
        match self {
            TableError::InvalidTableSize { row, expected, actual } => ErrorView::InvalidTableSize {
                row: *row,
                expected: *expected,
                actual: *actual,
            },
            TableError::MergeOutOfTable { x, y, merge, max } => ErrorView::MergeOutOfTable {
                x: *x,
                y: *y,
                merge: *merge,
                max: *max,
            },
            TableError::MergeOverwrite { x, y } => ErrorView::MergeOverwrite { x: *x, y: *y },
            TableError::WriteError(m) => ErrorView::WriteError(m@),
            TableError::Unexpected(m) => ErrorView::Unexpected(m@),
        }
    }
}

} // verus!

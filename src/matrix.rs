//! Coordinates and chunks of the extended data matrix.

use vstd::prelude::*;

verus! {

/// Length in bytes of one chunk of the matrix.
pub const CHUNK_SIZE: usize = 32;

/// Factor by which the rows of the matrix are extended.
pub const EXTENSION_FACTOR: usize = 2;

/// Errors of the recovery pipeline.
#[derive(Clone, Copy, Debug, PartialEq, Eq, Structural)]
pub enum Error {
    /// A row or column index does not fit the width of a position.
    IndexOverflow,
    /// A chunk does not have `CHUNK_SIZE` bytes.
    InvalidChunkSize,
    /// A reconstructed column does not hold a cell that was asked for.
    DataCellNotFound,
    /// A row rebuilt from cells does not have `columns * CHUNK_SIZE` bytes.
    InvalidRowSize,
    /// More cells are missing than the configured threshold allows.
    TooManyCellsMissing,
    /// A recovered row has an index outside the block's rows.
    RowIndexOutOfRange,
    /// An event came that the pipeline was not waiting for.
    UnexpectedEvent,
}

impl Error {
    pub open spec fn message_spec(&self) -> Seq<char> {
        match self {
            Error::IndexOverflow => "Index does not fit into a position"@,
            Error::InvalidChunkSize => "Chunk size is not valid"@,
            Error::DataCellNotFound => "Data cell not found"@,
            Error::InvalidRowSize => "Row size is not valid after reconstruction"@,
            Error::TooManyCellsMissing => "Too many cells are missing"@,
            Error::RowIndexOutOfRange => "Row index is out of range"@,
            Error::UnexpectedEvent => "Unexpected event"@,
        }
    }

    /// A human-readable description of the error.
    pub fn message(&self) -> (r: String)
        ensures
            r@ == self.message_spec(),
    {
        match self {
            Error::IndexOverflow => String::from_str("Index does not fit into a position"),
            Error::InvalidChunkSize => String::from_str("Chunk size is not valid"),
            Error::DataCellNotFound => String::from_str("Data cell not found"),
            Error::InvalidRowSize => String::from_str("Row size is not valid after reconstruction"),
            Error::TooManyCellsMissing => String::from_str("Too many cells are missing"),
            Error::RowIndexOutOfRange => String::from_str("Row index is out of range"),
            Error::UnexpectedEvent => String::from_str("Unexpected event"),
        }
    }
}

/// Dimensions of a block's matrix: `rows` rows before extension (extended to
/// `rows * EXTENSION_FACTOR`) and `cols` columns.
#[derive(Clone, Copy, Debug, PartialEq, Eq, Structural)]
pub struct Dimensions {
    pub rows: u16,
    pub cols: u16,
}

/// A coordinate in the extended matrix.
#[derive(Clone, Copy, Debug, PartialEq, Eq, Structural)]
pub struct Position {
    pub row: u32,
    pub col: u16,
}

/// The positions of the given rows, row by row, each in column order.
pub open spec fn rows_positions(rows: Seq<u32>, cols: nat) -> Seq<Position>
    decreases rows.len(),
{
    if rows.len() == 0 {
        Seq::empty()
    } else {
        rows_positions(rows.drop_last(), cols) + Seq::new(
            cols,
            |c: int| Position { row: rows.last(), col: c as u16 },
        )
    }
}

impl Dimensions {
    pub open spec fn extended_rows_spec(&self) -> nat {
        (self.rows as nat) * (EXTENSION_FACTOR as nat)
    }

    /// Number of rows of the extended matrix.
    pub fn extended_rows(&self) -> (r: u32)
        ensures
            r == self.extended_rows_spec(),
    {
        self.rows as u32 * EXTENSION_FACTOR as u32
    }

    /// Number of columns.
    pub fn cols(&self) -> (r: u16)
        ensures
            r == self.cols,
    {
        self.cols
    }

    /// All positions of the given rows of the extended matrix, row by row in the
    /// order given, each row in column order.
    pub fn extended_rows_positions(&self, rows: &[u32]) -> (r: Vec<Position>)
        ensures
            r@ == rows_positions(rows@, self.cols as nat),
    {
        let mut r: Vec<Position> = Vec::new();
        let mut i: usize = 0;
        while i < rows.len()
            invariant
                i <= rows@.len(),
                r@ == rows_positions(rows@.subrange(0, i as int), self.cols as nat),
            decreases rows@.len() - i,
        {
            let ghost before = r@;
            let mut c: u16 = 0;
            while c < self.cols
                invariant
                    c <= self.cols,
                    i < rows@.len(),
                    r@ == before + Seq::new(
                        c as nat,
                        |k: int| Position { row: rows@[i as int], col: k as u16 },
                    ),
                decreases self.cols - c,
            {
                r.push(Position { row: rows[i], col: c });
                c = c + 1;
            }
            proof {
                let s = rows@.subrange(0, i + 1);
                assert(s.drop_last() =~= rows@.subrange(0, i as int));
                assert(r@ =~= rows_positions(s, self.cols as nat));
            }
            i = i + 1;
        }
        proof {
            assert(rows@.subrange(0, rows@.len() as int) =~= rows@);
        }
        r
    }
}

} // verus!

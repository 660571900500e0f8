//! Cells of the matrix and the slicing of rows into cells.

use vstd::prelude::*;
use crate::matrix::{Error, Position, CHUNK_SIZE};

verus! {

/// A retrieved cell: its position, its chunk and the proof that came with it.
/// It is not trusted until its position has been verified.
#[derive(Clone, Debug)]
pub struct Cell {
    pub position: Position,
    pub data: Vec<u8>,
    pub proof: Vec<u8>,
}

/// A chunk that passed verification or was reconstructed, at its position.
#[derive(Clone, Debug)]
pub struct DataCell {
    pub position: Position,
    pub data: Vec<u8>,
}

impl View for DataCell {
    type V = (Position, Seq<u8>);

    open spec fn view(&self) -> (Position, Seq<u8>) {
        (self.position, self.data@)
    }
}

/// The views of a sequence of data cells.
pub open spec fn cells_view(s: Seq<DataCell>) -> Seq<(Position, Seq<u8>)> {
    s.map_values(|c: DataCell| c@)
}

/// Copies a byte slice into a new vector.
pub fn copy_bytes(s: &[u8]) -> (r: Vec<u8>)
    ensures
        r@ == s@,
{
    let mut r: Vec<u8> = Vec::new();
    let mut i: usize = 0;
    while i < s.len()
        invariant
            i <= s@.len(),
            r@ == s@.subrange(0, i as int),
        decreases s@.len() - i,
    {
        r.push(s[i]);
        i = i + 1;
        proof {
            assert(r@ =~= s@.subrange(0, i as int));
        }
    }
    proof {
        assert(s@.subrange(0, s@.len() as int) =~= s@);
    }
    r
}

impl DataCell {
    /// The data cell of a verified cell: same position, same chunk.
    pub fn from_cell(cell: Cell) -> (r: DataCell)
        ensures
            r@ == (cell.position, cell.data@),
            r.position.col == cell.position.col,
            cell.data@.len() == CHUNK_SIZE ==> r.data@.len() == CHUNK_SIZE,
    {
        DataCell { position: cell.position, data: cell.data }
    }
}

/// Whether a row and a column index fit the fields of a position.
pub open spec fn fits_position(row: int, col: int) -> bool {
    row <= u32::MAX && col <= u16::MAX
}

/// Builds the data cell at (`row`, `col`) holding `data`.
pub fn new_data_cell(row: usize, col: usize, data: &[u8]) -> (r: Result<DataCell, Error>)
    ensures
        match r {
            Ok(c) => fits_position(row as int, col as int) && data@.len() == CHUNK_SIZE && c@ == (
                Position { row: row as u32, col: col as u16 },
                data@,
            ),
            Err(e) => if !fits_position(row as int, col as int) {
                e == Error::IndexOverflow
            } else {
                data@.len() != CHUNK_SIZE && e == Error::InvalidChunkSize
            },
        },
{
    if row > u32::MAX as usize || col > u16::MAX as usize {
        return Err(Error::IndexOverflow);
    }
    if data.len() != CHUNK_SIZE {
        return Err(Error::InvalidChunkSize);
    }
    Ok(DataCell { position: Position { row: row as u32, col: col as u16 }, data: copy_bytes(data) })
}

/// The cells of row `row` holding `data`: one per whole chunk, in column order;
/// bytes after the last whole chunk are left out.
pub open spec fn row_cells(row: int, data: Seq<u8>) -> Seq<(Position, Seq<u8>)> {
    Seq::new(
        data.len() / (CHUNK_SIZE as nat),
        |c: int|
            (
                Position { row: row as u32, col: c as u16 },
                data.subrange(c * CHUNK_SIZE, c * CHUNK_SIZE + CHUNK_SIZE),
            ),
    )
}

/// Whether every cell of row `row` holding `data` has an index that fits a position.
pub open spec fn row_fits(row: int, data: Seq<u8>) -> bool {
    data.len() / (CHUNK_SIZE as nat) == 0 || fits_position(
        row,
        data.len() / (CHUNK_SIZE as nat) - 1,
    )
}

/// Slices a row into data cells of `CHUNK_SIZE` bytes, in column order.
pub fn data_cells_from_row(row: usize, row_data: &[u8]) -> (r: Result<Vec<DataCell>, Error>)
    ensures
        match r {
            Ok(v) => row_fits(row as int, row_data@) && cells_view(v@) == row_cells(
                row as int,
                row_data@,
            ),
            Err(e) => !row_fits(row as int, row_data@) && e == Error::IndexOverflow,
        },
{
    let len: usize = row_data.len();
    let n: usize = len / CHUNK_SIZE;
    let mut v: Vec<DataCell> = Vec::new();
    let mut c: usize = 0;
    while c < n
        invariant
            len == row_data@.len(),
            n == row_data@.len() / (CHUNK_SIZE as nat),
            c <= n,
            forall|k: int| 0 <= k < c ==> fits_position(row as int, k),
            v@.len() == c,
            cells_view(v@) == row_cells(row as int, row_data@).subrange(0, c as int),
        decreases n - c,
    {
        proof {
            assert(c * 32 + 32 <= len) by (nonlinear_arith)
                requires
                    c < n,
                    n == len / 32,
                    len >= 0,
            ;
        }
        let start: usize = c * CHUNK_SIZE;
        let chunk = &row_data[start..start + CHUNK_SIZE];
        let cell = new_data_cell(row, c, chunk);
        let ghost prev = v@;
        match cell {
            Ok(cell) => {
                v.push(cell);
            },
            Err(e) => {
                return Err(e);
            },
        }
        proof {
            let rc = row_cells(row as int, row_data@);
            assert(rc[c as int] == (
                Position { row: row as u32, col: c as u16 },
                row_data@.subrange(c * CHUNK_SIZE, c * CHUNK_SIZE + CHUNK_SIZE),
            ));
            assert(v@.last()@ == rc[c as int]);
            assert forall|k: int| 0 <= k < c implies #[trigger] v@[k]@ == rc[k] by {
                assert(v@[k] == prev[k]);
                assert(cells_view(prev)[k] == rc.subrange(0, c as int)[k]);
            }
        }
        c = c + 1;
        proof {
            assert(chunk@ == row_data@.subrange(start as int, start + CHUNK_SIZE));
            assert(cells_view(v@) =~= row_cells(row as int, row_data@).subrange(0, c as int));
        }
    }
    proof {
        assert(row_cells(row as int, row_data@).subrange(0, n as int) =~= row_cells(
            row as int,
            row_data@,
        ));
        if n > 0 {
            assert(fits_position(row as int, n - 1));
        }
    }
    Ok(v)
}

/// The views of optional rows.
pub open spec fn rows_view(rows: Seq<Option<Vec<u8>>>) -> Seq<Option<Seq<u8>>> {
    rows.map_values(|r: Option<Vec<u8>>|
        match r {
            Some(d) => Some(d@),
            None => None,
        })
}

/// The cells of the present rows, row by row, each row indexed by its place in `rows`.
pub open spec fn rows_cells(rows: Seq<Option<Seq<u8>>>) -> Seq<(Position, Seq<u8>)>
    decreases rows.len(),
{
    if rows.len() == 0 {
        Seq::empty()
    } else {
        rows_cells(rows.drop_last()) + match rows.last() {
            Some(d) => row_cells(rows.len() - 1, d),
            None => Seq::empty(),
        }
    }
}

/// Whether every present row's cells have indices that fit a position.
pub open spec fn rows_fit(rows: Seq<Option<Seq<u8>>>) -> bool {
    forall|i: int|
        0 <= i < rows.len() ==> match #[trigger] rows[i] {
            Some(d) => row_fits(i, d),
            None => true,
        }
}

/// Slices every present row into data cells; absent rows give none.
pub fn data_cells_from_rows(rows: Vec<Option<Vec<u8>>>) -> (r: Result<Vec<DataCell>, Error>)
    ensures
        match r {
            Ok(v) => rows_fit(rows_view(rows@)) && cells_view(v@) == rows_cells(rows_view(rows@)),
            Err(e) => !rows_fit(rows_view(rows@)) && e == Error::IndexOverflow,
        },
{
    let ghost rv = rows_view(rows@);
    let mut v: Vec<DataCell> = Vec::new();
    let mut i: usize = 0;
    while i < rows.len()
        invariant
            rv == rows_view(rows@),
            i <= rows@.len(),
            rows_fit(rv.subrange(0, i as int)),
            cells_view(v@) == rows_cells(rv.subrange(0, i as int)),
        decreases rows@.len() - i,
    {
        let ghost prefix = rv.subrange(0, i as int);
        let ghost next = rv.subrange(0, i + 1);
        proof {
            assert(next.drop_last() =~= prefix);
        }
        match &rows[i] {
            Some(d) => {
                let cells = data_cells_from_row(i, d.as_slice());
                match cells {
                    Ok(mut cells) => {
                        proof {
                            assert(cells_view(v@ + cells@) =~= cells_view(v@) + cells_view(cells@));
                        }
                        v.append(&mut cells);
                    },
                    Err(e) => {
                        proof {
                            assert(rv[i as int] == Some(d@));
                        }
                        return Err(e);
                    },
                }
            },
            None => {},
        }
        i = i + 1;
        proof {
            assert(cells_view(v@) =~= rows_cells(next));
            assert forall|k: int| 0 <= k < next.len() implies match #[trigger] next[k] {
                Some(d) => row_fits(k, d),
                None => true,
            } by {
                if k < prefix.len() {
                    assert(next[k] == prefix[k]);
                }
            }
        }
    }
    proof {
        assert(rv.subrange(0, rows@.len() as int) =~= rv);
    }
    Ok(v)
}

} // verus!

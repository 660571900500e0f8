//! Recovery of missing rows from verified cells and reconstructed columns.

use std::collections::HashMap;
use vstd::prelude::*;
use crate::cells::{cells_view, copy_bytes, Cell, DataCell};
use crate::matrix::{rows_positions, Dimensions, Error, Position, CHUNK_SIZE, EXTENSION_FACTOR};

verus! {

broadcast use vstd::std_specs::hash::group_hash_axioms;

impl View for Cell {
    type V = (Position, Seq<u8>, Seq<u8>);

    open spec fn view(&self) -> (Position, Seq<u8>, Seq<u8>) {
        (self.position, self.data@, self.proof@)
    }
}

impl Cell {
    /// A copy of the cell.
    pub fn copy(&self) -> (r: Cell)
        ensures
            r@ == self@,
    {
        Cell {
            position: self.position,
            data: copy_bytes(self.data.as_slice()),
            proof: copy_bytes(self.proof.as_slice()),
        }
    }
}

impl DataCell {
    /// A copy of the data cell.
    pub fn copy(&self) -> (r: DataCell)
        ensures
            r@ == self@,
    {
        DataCell { position: self.position, data: copy_bytes(self.data.as_slice()) }
    }
}

/// Whether `p` is one of `s`.
pub fn contains_position(s: &[Position], p: Position) -> (r: bool)
    ensures
        r == s@.contains(p),
{
    let mut i: usize = 0;
    while i < s.len()
        invariant
            i <= s@.len(),
            forall|k: int| 0 <= k < i ==> s@[k] != p,
        decreases s@.len() - i,
    {
        if s[i] == p {
            return true;
        }
        i = i + 1;
    }
    false
}

/// The cells of `s` whose position is in `verified`, in their order.
pub open spec fn verified_cells(s: Seq<Cell>, verified: Seq<Position>) -> Seq<(
    Position,
    Seq<u8>,
    Seq<u8>,
)>
    decreases s.len(),
{
    if s.len() == 0 {
        Seq::empty()
    } else if verified.contains(s.last().position) {
        verified_cells(s.drop_last(), verified).push(s.last()@)
    } else {
        verified_cells(s.drop_last(), verified)
    }
}

/// The views of a sequence of cells.
pub open spec fn cell_views(s: Seq<Cell>) -> Seq<(Position, Seq<u8>, Seq<u8>)> {
    s.map_values(|c: Cell| c@)
}

/// Splits the result of one fetch-and-verify round: the fetched cells whose
/// position was verified are kept, in order; the positions that were never
/// fetched are followed by those that failed verification.
pub fn fetch_verified(
    fetched: &Vec<Cell>,
    unfetched: Vec<Position>,
    verified: &[Position],
    unverified: Vec<Position>,
) -> (r: (Vec<Cell>, Vec<Position>))
    ensures
        cell_views(r.0@) == verified_cells(fetched@, verified@),
        r.1@ == unfetched@ + unverified@,
{
    let mut kept: Vec<Cell> = Vec::new();
    let mut i: usize = 0;
    while i < fetched.len()
        invariant
            i <= fetched@.len(),
            cell_views(kept@) == verified_cells(fetched@.subrange(0, i as int), verified@),
        decreases fetched@.len() - i,
    {
        let ghost prefix = fetched@.subrange(0, i + 1);
        proof {
            assert(prefix.drop_last() =~= fetched@.subrange(0, i as int));
        }
        if contains_position(verified, fetched[i].position) {
            let c = fetched[i].copy();
            kept.push(c);
            proof {
                assert(cell_views(kept@) =~= verified_cells(prefix, verified@));
            }
        }
        i = i + 1;
    }
    proof {
        assert(fetched@.subrange(0, fetched@.len() as int) =~= fetched@);
    }
    let mut missing = unfetched;
    let mut unverified = unverified;
    missing.append(&mut unverified);
    (kept, missing)
}

/// The extended row of a position, in the reconstructed (not extended) column.
pub open spec fn column_index(p: Position) -> int {
    (p.row as int) / (EXTENSION_FACTOR as int)
}

/// Whether the reconstructed columns hold the cell at `p`.
pub open spec fn has_cell(columns: Map<u16, Vec<Vec<u8>>>, p: Position) -> bool {
    columns.contains_key(p.col) && column_index(p) < columns[p.col]@.len()
}

/// The chunk that the reconstructed columns hold at `p`.
pub open spec fn cell_chunk(columns: Map<u16, Vec<Vec<u8>>>, p: Position) -> Seq<u8> {
    columns[p.col]@[column_index(p)]@
}

/// Whether every chunk of the reconstructed columns has `CHUNK_SIZE` bytes.
pub open spec fn columns_wf(columns: Map<u16, Vec<Vec<u8>>>) -> bool {
    forall|c: u16, i: int|
        columns.contains_key(c) && 0 <= i < columns[c]@.len() ==> (#[trigger] columns[c]@[i])@.len()
            == CHUNK_SIZE
}

/// The data cell at `position`, taken from the reconstructed columns.
pub fn data_cell(position: Position, reconstructed: &HashMap<u16, Vec<Vec<u8>>>) -> (r: Result<
    DataCell,
    Error,
>)
    ensures
        match r {
            Ok(c) => has_cell(reconstructed@, position) && c@ == (
                position,
                cell_chunk(reconstructed@, position),
            ) && c.position.col == position.col && (columns_wf(reconstructed@)
                ==> c.data@.len() == CHUNK_SIZE),
            Err(e) => !has_cell(reconstructed@, position) && e == Error::DataCellNotFound,
        },
{
    let row: usize = position.row as usize;
    match reconstructed.get(&position.col) {
        Some(column) => {
            let k: usize = row / EXTENSION_FACTOR;
            if k < column.len() {
                Ok(DataCell { position, data: copy_bytes(column[k].as_slice()) })
            } else {
                Err(Error::DataCellNotFound)
            }
        },
        None => Err(Error::DataCellNotFound),
    }
}

/// Whether position `a` does not come after `b` in (row, column) order.
pub open spec fn position_le(a: Position, b: Position) -> bool {
    a.row < b.row || (a.row == b.row && a.col <= b.col)
}

/// Inserts `x` into `s` after every element from the end whose position comes
/// after x's; in a sorted sequence, after all elements not after it.
pub open spec fn insert_sorted(s: Seq<(Position, Seq<u8>)>, x: (Position, Seq<u8>)) -> Seq<
    (Position, Seq<u8>),
>
    decreases s.len(),
{
    if s.len() == 0 {
        seq![x]
    } else if position_le(s.last().0, x.0) {
        s.push(x)
    } else {
        insert_sorted(s.drop_last(), x).push(s.last())
    }
}

/// The cells sorted by (row, column), cells at equal positions kept in their order.
pub open spec fn sort_cells(s: Seq<(Position, Seq<u8>)>) -> Seq<(Position, Seq<u8>)>
    decreases s.len(),
{
    if s.len() == 0 {
        Seq::empty()
    } else {
        insert_sorted(sort_cells(s.drop_last()), s.last())
    }
}

proof fn lemma_insert_sorted_at(s: Seq<(Position, Seq<u8>)>, x: (Position, Seq<u8>), j: int)
    requires
        0 <= j <= s.len(),
        forall|k: int| j <= k < s.len() ==> !position_le(#[trigger] s[k].0, x.0),
        j == 0 || position_le(s[j - 1].0, x.0),
    ensures
        insert_sorted(s, x) == s.insert(j, x),
    decreases s.len(),
{
    if s.len() == 0 {
        assert(s.insert(j, x) =~= seq![x]);
    } else if position_le(s.last().0, x.0) {
        if j < s.len() {
            assert(!position_le(s[s.len() - 1].0, x.0));
        }
        assert(s.insert(j, x) =~= s.push(x));
    } else {
        let d = s.drop_last();
        assert(j < s.len());
        assert forall|k: int| j <= k < d.len() implies !position_le(#[trigger] d[k].0, x.0) by {
            assert(d[k] == s[k]);
        }
        lemma_insert_sorted_at(d, x, j);
        assert(d.insert(j, x).push(s.last()) =~= s.insert(j, x));
    }
}

/// Whether the cells are in (row, column) order.
pub open spec fn cells_sorted(s: Seq<(Position, Seq<u8>)>) -> bool {
    forall|i: int, j: int| 0 <= i < j < s.len() ==> position_le(#[trigger] s[i].0, #[trigger] s[j].0)
}

proof fn lemma_insert_sorted_place(s: Seq<(Position, Seq<u8>)>, x: (Position, Seq<u8>)) -> (j: int)
    ensures
        0 <= j <= s.len(),
        forall|k: int| j <= k < s.len() ==> !position_le(#[trigger] s[k].0, x.0),
        j == 0 || position_le(s[j - 1].0, x.0),
        insert_sorted(s, x) == s.insert(j, x),
    decreases s.len(),
{
    if s.len() == 0 {
        assert(s.insert(0, x) =~= seq![x]);
        0
    } else if position_le(s.last().0, x.0) {
        assert(s.insert(s.len() as int, x) =~= s.push(x));
        s.len() as int
    } else {
        let d = s.drop_last();
        let j = lemma_insert_sorted_place(d, x);
        assert(d.insert(j, x).push(s.last()) =~= s.insert(j, x));
        assert forall|k: int| j <= k < s.len() implies !position_le(#[trigger] s[k].0, x.0) by {
            if k < d.len() {
                assert(s[k] == d[k]);
            }
        }
        if j > 0 {
            assert(s[j - 1] == d[j - 1]);
        }
        j
    }
}

/// Sorting cells orders them by (row, column) and keeps every cell: the result
/// is a sorted permutation of its input.
pub proof fn lemma_sort_cells(s: Seq<(Position, Seq<u8>)>)
    ensures
        cells_sorted(sort_cells(s)),
        sort_cells(s).to_multiset() == s.to_multiset(),
    decreases s.len(),
{
    broadcast use vstd::seq_lib::group_to_multiset_ensures, vstd::seq_lib::to_multiset_insert;

    if s.len() > 0 {
        let d = s.drop_last();
        let x = s.last();
        lemma_sort_cells(d);
        let t = sort_cells(d);
        let j = lemma_insert_sorted_place(t, x);
        let r = t.insert(j, x);
        assert(s =~= d.push(x));
        assert(r.to_multiset() == t.to_multiset().insert(x));
        assert forall|a: int, b: int| 0 <= a < b < r.len() implies position_le(
            #[trigger] r[a].0,
            #[trigger] r[b].0,
        ) by {
            if b < j {
                assert(r[a] == t[a] && r[b] == t[b]);
            } else if b == j {
                assert(r[a] == t[a]);
                if a < j - 1 {
                    assert(position_le(t[a].0, t[j - 1].0));
                }
            } else if a < j {
                assert(r[a] == t[a] && r[b] == t[b - 1]);
            } else if a == j {
                assert(r[b] == t[b - 1]);
                assert(!position_le(t[b - 1].0, x.0));
            } else {
                assert(r[a] == t[a - 1] && r[b] == t[b - 1]);
            }
        }
    }
}

/// Sorts data cells by (row, column); cells at equal positions keep their order.
pub fn sort_data_cells(cells: &Vec<DataCell>) -> (r: Vec<DataCell>)
    ensures
        cells_view(r@) == sort_cells(cells_view(cells@)),
        cells_sorted(cells_view(r@)),
        cells_view(r@).to_multiset() == cells_view(cells@).to_multiset(),
{
    let mut r: Vec<DataCell> = Vec::new();
    let mut i: usize = 0;
    while i < cells.len()
        invariant
            i <= cells@.len(),
            r@.len() == i,
            cells_view(r@) == sort_cells(cells_view(cells@.subrange(0, i as int))),
        decreases cells@.len() - i,
    {
        let x = cells[i].copy();
        let mut j: usize = r.len();
        while j > 0 && !(r[j - 1].position.row < x.position.row || (r[j - 1].position.row
            == x.position.row && r[j - 1].position.col <= x.position.col))
            invariant
                j <= r@.len(),
                forall|k: int| j <= k < r@.len() ==> !position_le(#[trigger] r@[k].position, x.position),
            decreases j,
        {
            j = j - 1;
        }
        let ghost before = cells_view(r@);
        proof {
            assert forall|k: int| j <= k < before.len() implies !position_le(
                #[trigger] before[k].0,
                x.position,
            ) by {
                assert(before[k] == r@[k]@);
            }
            if j > 0 {
                assert(before[j - 1] == r@[j - 1]@);
            }
            lemma_insert_sorted_at(before, x@, j as int);
        }
        r.insert(j, x);
        i = i + 1;
        proof {
            let s = cells_view(cells@.subrange(0, i as int));
            assert(s.drop_last() =~= cells_view(cells@.subrange(0, i - 1)));
            assert(s.last() == cells@[i - 1]@);
            assert(cells_view(r@) =~= before.insert(j as int, x@));
        }
    }
    proof {
        assert(cells@.subrange(0, cells@.len() as int) =~= cells@);
        lemma_sort_cells(cells_view(cells@));
    }
    r
}

/// The bytes of the cells of row `row`, concatenated in the order of `cells`.
pub open spec fn row_bytes(cells: Seq<(Position, Seq<u8>)>, row: u32) -> Seq<u8>
    decreases cells.len(),
{
    if cells.len() == 0 {
        Seq::empty()
    } else if cells.last().0.row == row {
        row_bytes(cells.drop_last(), row) + cells.last().1
    } else {
        row_bytes(cells.drop_last(), row)
    }
}

/// Concatenates the chunks of the cells of row `row`, in the order of `cells`.
pub fn row_data(cells: &Vec<DataCell>, row: u32) -> (r: Vec<u8>)
    ensures
        r@ == row_bytes(cells_view(cells@), row),
{
    let mut r: Vec<u8> = Vec::new();
    let mut i: usize = 0;
    while i < cells.len()
        invariant
            i <= cells@.len(),
            r@ == row_bytes(cells_view(cells@.subrange(0, i as int)), row),
        decreases cells@.len() - i,
    {
        let ghost s = cells_view(cells@.subrange(0, i + 1));
        proof {
            assert(s.drop_last() =~= cells_view(cells@.subrange(0, i as int)));
            assert(s.last() == cells@[i as int]@);
        }
        if cells[i].position.row == row {
            let data = &cells[i].data;
            let ghost before = r@;
            let mut k: usize = 0;
            while k < data.len()
                invariant
                    k <= data@.len(),
                    r@ == before + data@.subrange(0, k as int),
                decreases data@.len() - k,
            {
                r.push(data[k]);
                k = k + 1;
                proof {
                    assert(r@ =~= before + data@.subrange(0, k as int));
                }
            }
            proof {
                assert(data@.subrange(0, data@.len() as int) =~= data@);
            }
        }
        i = i + 1;
    }
    proof {
        assert(cells@.subrange(0, cells@.len() as int) =~= cells@);
    }
    r
}

/// What recovery of the given rows asks for first: nothing where the rows hold
/// no cell, else the positions of all their cells.
pub enum RowFetch {
    Nothing,
    Positions(Vec<Position>),
}

/// Starts the recovery of `missing_rows`: the positions of all their cells are
/// to be fetched, unless there is none, in which case recovery is done and
/// yields no row.
pub fn plan_row_fetch(dimensions: &Dimensions, missing_rows: &[u32]) -> (r: RowFetch)
    ensures
        match r {
            RowFetch::Nothing => rows_positions(missing_rows@, dimensions.cols as nat).len() == 0,
            RowFetch::Positions(v) => v@.len() > 0 && v@ == rows_positions(
                missing_rows@,
                dimensions.cols as nat,
            ),
        },
        missing_rows@.len() == 0 ==> r is Nothing,
{
    let positions = dimensions.extended_rows_positions(missing_rows);
    if positions.len() == 0 {
        RowFetch::Nothing
    } else {
        RowFetch::Positions(positions)
    }
}

/// The views of the chunks that the reconstructed columns hold at `positions`.
pub open spec fn reconstructed_cells(
    positions: Seq<Position>,
    columns: Map<u16, Vec<Vec<u8>>>,
) -> Seq<(Position, Seq<u8>)> {
    positions.map_values(|p: Position| (p, cell_chunk(columns, p)))
}

/// The views of the chunks of verified cells.
pub open spec fn fetched_cells(cells: Seq<Cell>) -> Seq<(Position, Seq<u8>)> {
    cells.map_values(|c: Cell| (c.position, c.data@))
}

/// All cells of the recovered rows, sorted by (row, column): the fetched ones,
/// then the reconstructed ones, before sorting.
pub open spec fn recovered_cells(
    fetched: Seq<Cell>,
    unfetched: Seq<Position>,
    columns: Map<u16, Vec<Vec<u8>>>,
) -> Seq<(Position, Seq<u8>)> {
    sort_cells(fetched_cells(fetched) + reconstructed_cells(unfetched, columns))
}

/// Whether the reconstructed columns hold every position of `positions`.
pub open spec fn has_cells(columns: Map<u16, Vec<Vec<u8>>>, positions: Seq<Position>) -> bool {
    forall|k: int| 0 <= k < positions.len() ==> has_cell(columns, #[trigger] positions[k])
}

/// Byte length of a whole row of a matrix with `cols` columns.
pub open spec fn row_size(cols: u16) -> nat {
    (cols as nat) * (CHUNK_SIZE as nat)
}

/// Whether every requested row, assembled from `cells`, has the length of a whole row.
pub open spec fn rows_complete(cells: Seq<(Position, Seq<u8>)>, rows: Seq<u32>, cols: u16) -> bool {
    forall|k: int| 0 <= k < rows.len() ==> #[trigger] row_bytes(cells, rows[k]).len() == row_size(cols)
}

/// Rebuilds `missing_rows` from the cells of the last fetch-and-verify round over
/// their positions (`fetched`, verified, and `unfetched`, still missing) and from
/// the columns reconstructed from the second round. Each row is the concatenation
/// of its cells' chunks in (row, column) order, and must have exactly
/// `cols * CHUNK_SIZE` bytes.
pub fn reconstruct_rows(
    dimensions: &Dimensions,
    missing_rows: &[u32],
    fetched: &Vec<Cell>,
    unfetched: &[Position],
    reconstructed: &HashMap<u16, Vec<Vec<u8>>>,
) -> (r: Result<Vec<(u32, Vec<u8>)>, Error>)
    ensures
        r is Ok <==> (has_cells(reconstructed@, unfetched@) && rows_complete(
            recovered_cells(fetched@, unfetched@, reconstructed@),
            missing_rows@,
            dimensions.cols,
        )),
        r matches Err(e) ==> if has_cells(reconstructed@, unfetched@) {
            e == Error::InvalidRowSize
        } else {
            e == Error::DataCellNotFound
        },
        r matches Ok(v) ==> v@.len() == missing_rows@.len() && forall|k: int|
            0 <= k < v@.len() ==> (#[trigger] v@[k]).0 == missing_rows@[k] && v@[k].1@ == row_bytes(
                recovered_cells(fetched@, unfetched@, reconstructed@),
                missing_rows@[k],
            ) && v@[k].1@.len() == row_size(dimensions.cols),
{
    let mut cells: Vec<DataCell> = Vec::new();
    let mut i: usize = 0;
    while i < fetched.len()
        invariant
            i <= fetched@.len(),
            cells@.len() == i,
            cells_view(cells@) == fetched_cells(fetched@).subrange(0, i as int),
        decreases fetched@.len() - i,
    {
        let c = DataCell::from_cell(fetched[i].copy());
        let ghost prev = cells@;
        cells.push(c);
        i = i + 1;
        proof {
            let fc = fetched_cells(fetched@);
            assert forall|k: int| 0 <= k < i implies #[trigger] cells@[k]@ == fc[k] by {
                if k < i - 1 {
                    assert(cells@[k] == prev[k]);
                    assert(cells_view(prev)[k] == fc.subrange(0, i - 1)[k]);
                }
            }
            assert(cells_view(cells@) =~= fetched_cells(fetched@).subrange(0, i as int));
        }
    }
    let ghost head = fetched_cells(fetched@);
    proof {
        assert(head.subrange(0, fetched@.len() as int) =~= head);
    }
    let mut j: usize = 0;
    while j < unfetched.len()
        invariant
            j <= unfetched@.len(),
            head == fetched_cells(fetched@),
            cells@.len() == head.len() + j,
            cells_view(cells@) == head + reconstructed_cells(unfetched@, reconstructed@).subrange(
                0,
                j as int,
            ),
            forall|k: int| 0 <= k < j ==> has_cell(reconstructed@, #[trigger] unfetched@[k]),
        decreases unfetched@.len() - j,
    {
        let ghost prev = cells@;
        match data_cell(unfetched[j], reconstructed) {
            Ok(c) => {
                cells.push(c);
            },
            Err(e) => {
                return Err(e);
            },
        }
        j = j + 1;
        proof {
            let rc = reconstructed_cells(unfetched@, reconstructed@);
            let want = head + rc.subrange(0, j as int);
            assert forall|k: int| 0 <= k < cells@.len() implies #[trigger] cells@[k]@ == want[k] by {
                if k < cells@.len() - 1 {
                    assert(cells@[k] == prev[k]);
                    assert(cells_view(prev)[k] == (head + rc.subrange(0, j - 1))[k]);
                }
            }
            assert(cells_view(cells@) =~= head + reconstructed_cells(
                unfetched@,
                reconstructed@,
            ).subrange(0, j as int));
        }
    }
    proof {
        let rc = reconstructed_cells(unfetched@, reconstructed@);
        assert(rc.subrange(0, unfetched@.len() as int) =~= rc);
        assert(has_cells(reconstructed@, unfetched@));
    }
    let sorted = sort_data_cells(&cells);
    let ghost all = recovered_cells(fetched@, unfetched@, reconstructed@);
    let size: usize = dimensions.cols as usize * CHUNK_SIZE;
    let mut rows: Vec<(u32, Vec<u8>)> = Vec::new();
    let mut m: usize = 0;
    while m < missing_rows.len()
        invariant
            m <= missing_rows@.len(),
            cells_view(sorted@) == all,
            all == recovered_cells(fetched@, unfetched@, reconstructed@),
            size == row_size(dimensions.cols),
            has_cells(reconstructed@, unfetched@),
            rows@.len() == m,
            forall|k: int|
                0 <= k < m ==> (#[trigger] rows@[k]).0 == missing_rows@[k] && rows@[k].1@
                    == row_bytes(all, missing_rows@[k]) && rows@[k].1@.len() == size,
        decreases missing_rows@.len() - m,
    {
        let row = missing_rows[m];
        let data = row_data(&sorted, row);
        if data.len() != size {
            proof {
                assert(row_bytes(all, missing_rows@[m as int]).len() != row_size(dimensions.cols));
                assert(!rows_complete(all, missing_rows@, dimensions.cols));
            }
            return Err(Error::InvalidRowSize);
        }
        rows.push((row, data));
        m = m + 1;
    }
    proof {
        assert forall|k: int| 0 <= k < missing_rows@.len() implies #[trigger] row_bytes(
            all,
            missing_rows@[k],
        ).len() == row_size(dimensions.cols) by {
            assert(rows@[k].1@ == row_bytes(all, missing_rows@[k]));
        }
    }
    Ok(rows)
}

/// Recovery depends on what the cells hold, not on how they were proved: cells
/// with the same positions and chunks, the same unfetched positions and the same
/// reconstructed columns give the same bytes for every row.
pub proof fn lemma_recovery_deterministic(
    fetched1: Seq<Cell>,
    fetched2: Seq<Cell>,
    unfetched: Seq<Position>,
    columns: Map<u16, Vec<Vec<u8>>>,
    row: u32,
)
    requires
        fetched_cells(fetched1) == fetched_cells(fetched2),
    ensures
        recovered_cells(fetched1, unfetched, columns) == recovered_cells(fetched2, unfetched, columns),
        row_bytes(recovered_cells(fetched1, unfetched, columns), row) == row_bytes(
            recovered_cells(fetched2, unfetched, columns),
            row,
        ),
{
}

} // verus!

//! The pipeline of one block as a state machine: the caller performs each
//! action (retrieval, verification, column decoding, extrinsic decoding) and
//! hands back what came of it as an event.

use std::collections::HashMap;
use vstd::prelude::*;
use crate::cells::{data_cells_from_rows, rows_cells, rows_fit, rows_view, Cell, DataCell};
use crate::matrix::{rows_positions, Dimensions, Error, Position};
use crate::pipeline::{
    absent_rows, exclude_rows, over_threshold, select_rows, selected_row, slot_count, splice_rows,
    spliced,
};
use crate::reconstruct::{
    has_cells, plan_row_fetch, reconstruct_rows, recovered_cells, row_bytes, rows_complete, RowFetch,
};

verus! {

/// Settings of the pipeline that hold for every block.
#[derive(Clone, Copy, Debug)]
pub struct BlockConfig {
    /// Whether the fallback source is not asked.
    pub disable_rpc: bool,
    /// Largest number of missing cells for which reconstruction is attempted.
    pub threshold: usize,
}

/// Where the processing of a block stands.
pub enum BlockState {
    /// Waiting for the application's rows from the primary source, verified.
    Primary,
    /// Waiting for the rows from the fallback source, verified.
    Fallback { primary_rows: Vec<Option<Vec<u8>>>, primary_verified: Vec<u32> },
    /// Waiting for the verified cells of the missing rows.
    RowCells { rows: Vec<Option<Vec<u8>>>, missing_rows: Vec<u32> },
    /// Waiting for the columns reconstructed for the cells still missing.
    Columns {
        rows: Vec<Option<Vec<u8>>>,
        missing_rows: Vec<u32>,
        fetched: Vec<Cell>,
        unfetched: Vec<Position>,
    },
    /// Nothing more to do for the block.
    Finished,
}

/// What came of an action.
pub enum Event {
    /// Rows answered by a source, one per requested row, with the indices of the
    /// rows that verified against their commitments and of those that did not.
    Rows { rows: Vec<Option<Vec<u8>>>, verified: Vec<u32>, missing: Vec<u32> },
    /// One fetch-and-verify round over cell positions: the verified cells and the
    /// positions still missing.
    Cells { fetched: Vec<Cell>, unfetched: Vec<Position> },
    /// Columns reconstructed from verified cells, not extended.
    Columns(HashMap<u16, Vec<Vec<u8>>>),
}

/// What the caller is to do next.
pub enum Action {
    /// Ask the fallback source for these rows and verify them; then `Event::Rows`.
    FetchFallbackRows(Vec<u32>),
    /// The fallback source is disabled: verify these absent rows; then `Event::Rows`.
    VerifyRows(Vec<Option<Vec<u8>>>),
    /// Fetch the cells at these positions and verify them; then `Event::Cells`.
    FetchCells(Vec<Position>),
    /// Fetch and verify enough of the columns of these positions and reconstruct
    /// the columns; then `Event::Columns`.
    ReconstructColumns(Vec<Position>),
    /// Decode the application data from these cells and store it.
    Decode(Vec<DataCell>),
    /// Give the block up.
    Fail(Error),
}

/// The rows kept from both sources, one slot per row.
pub open spec fn selection(
    primary: Seq<Option<Seq<u8>>>,
    fallback: Seq<Option<Seq<u8>>>,
    primary_verified: Seq<u32>,
    fallback_verified: Seq<u32>,
    extended_rows: nat,
) -> Seq<Option<Seq<u8>>> {
    Seq::new(
        slot_count(primary.len(), fallback.len(), extended_rows),
        |k: int| selected_row(primary, fallback, primary_verified, fallback_verified, k),
    )
}

/// The recovered rows: each missing row with the bytes of its cells.
pub open spec fn recovered_rows(cells: Seq<(Position, Seq<u8>)>, missing: Seq<u32>) -> Seq<
    (u32, Seq<u8>),
> {
    Seq::new(missing.len(), |k: int| (missing[k], row_bytes(cells, missing[k])))
}

/// Whether `action` fails with `e` and nothing is left to do.
pub open spec fn fails_with(next: BlockState, action: Action, e: Error) -> bool {
    &&& next is Finished
    &&& action matches Action::Fail(f) && f == e
}

/// Whether the rows are handed to decoding as cells, or the block fails where
/// a row's cells do not fit a position.
pub open spec fn decodes(rows: Seq<Option<Seq<u8>>>, next: BlockState, action: Action) -> bool {
    if rows_fit(rows) {
        &&& next is Finished
        &&& action matches Action::Decode(c) && crate::cells::cells_view(c@) == rows_cells(rows)
    } else {
        fails_with(next, action, Error::IndexOverflow)
    }
}

/// What a step does, for each state and event.
pub open spec fn step_spec(
    config: BlockConfig,
    dims: Dimensions,
    state: BlockState,
    event: Event,
    next: BlockState,
    action: Action,
) -> bool {
    match state {
        BlockState::Primary => match event {
            Event::Rows { rows, verified, missing } => {
                &&& next matches BlockState::Fallback { primary_rows, primary_verified }
                    && primary_rows@ == rows@ && primary_verified@ == verified@
                &&& if config.disable_rpc {
                    action matches Action::VerifyRows(a) && a@.len() == rows@.len() && forall|k: int|
                        0 <= k < a@.len() ==> #[trigger] a@[k] is None
                } else {
                    action matches Action::FetchFallbackRows(m) && m@ == missing@
                }
            },
            _ => fails_with(next, action, Error::UnexpectedEvent),
        },
        BlockState::Fallback { primary_rows, primary_verified } => match event {
            Event::Rows { rows, verified, missing } => {
                let m = exclude_rows(missing@, primary_verified@);
                let sel = selection(
                    rows_view(primary_rows@),
                    rows_view(rows@),
                    primary_verified@,
                    verified@,
                    dims.extended_rows_spec(),
                );
                if over_threshold(m.len(), dims.cols, config.threshold) {
                    fails_with(next, action, Error::TooManyCellsMissing)
                } else if rows_positions(m, dims.cols as nat).len() == 0 {
                    decodes(sel, next, action)
                } else {
                    &&& next matches BlockState::RowCells { rows: r, missing_rows }
                        && rows_view(r@) == sel && missing_rows@ == m
                    &&& action matches Action::FetchCells(p) && p@ == rows_positions(
                        m,
                        dims.cols as nat,
                    )
                }
            },
            _ => fails_with(next, action, Error::UnexpectedEvent),
        },
        BlockState::RowCells { rows, missing_rows } => match event {
            Event::Cells { fetched, unfetched } => {
                &&& next matches BlockState::Columns { rows: r, missing_rows: m, fetched: f, unfetched: u }
                    && r@ == rows@ && m@ == missing_rows@ && f@ == fetched@ && u@ == unfetched@
                &&& action matches Action::ReconstructColumns(p) && p@ == unfetched@
            },
            _ => fails_with(next, action, Error::UnexpectedEvent),
        },
        BlockState::Columns { rows, missing_rows, fetched, unfetched } => match event {
            Event::Columns(columns) => {
                let cells = recovered_cells(fetched@, unfetched@, columns@);
                if !has_cells(columns@, unfetched@) {
                    fails_with(next, action, Error::DataCellNotFound)
                } else if !rows_complete(cells, missing_rows@, dims.cols) {
                    fails_with(next, action, Error::InvalidRowSize)
                } else if exists|k: int|
                    0 <= k < missing_rows@.len() && #[trigger] missing_rows@[k] >= rows@.len() {
                    fails_with(next, action, Error::RowIndexOutOfRange)
                } else {
                    decodes(
                        spliced(rows_view(rows@), recovered_rows(cells, missing_rows@)),
                        next,
                        action,
                    )
                }
            },
            _ => fails_with(next, action, Error::UnexpectedEvent),
        },
        BlockState::Finished => fails_with(next, action, Error::UnexpectedEvent),
    }
}

fn copy_positions(s: &Vec<Position>) -> (r: Vec<Position>)
    ensures
        r@ == s@,
{
    let mut r: Vec<Position> = Vec::new();
    let mut i: usize = 0;
    while i < s.len()
        invariant
            i <= s@.len(),
            r@ == s@.subrange(0, i as int),
        decreases s@.len() - i,
    {
        r.push(s[i]);
        i = i + 1;
        proof {
            assert(r@ =~= s@.subrange(0, i as int));
        }
    }
    proof {
        assert(s@.subrange(0, s@.len() as int) =~= s@);
    }
    r
}

fn all_below(s: &Vec<u32>, n: usize) -> (r: bool)
    ensures
        r == forall|k: int| 0 <= k < s@.len() ==> #[trigger] s@[k] < n,
{
    let mut i: usize = 0;
    while i < s.len()
        invariant
            i <= s@.len(),
            forall|k: int| 0 <= k < i ==> #[trigger] s@[k] < n,
        decreases s@.len() - i,
    {
        if s[i] as usize >= n {
            assert(s@[i as int] >= n);
            return false;
        }
        i = i + 1;
    }
    true
}

fn decode_rows(rows: Vec<Option<Vec<u8>>>) -> (r: (BlockState, Action))
    ensures
        decodes(rows_view(rows@), r.0, r.1),
{
    match data_cells_from_rows(rows) {
        Ok(cells) => (BlockState::Finished, Action::Decode(cells)),
        Err(e) => (BlockState::Finished, Action::Fail(e)),
    }
}

/// The first state of a block: its application rows are to be fetched from
/// the primary source and verified.
pub fn start() -> (r: BlockState)
    ensures
        r is Primary,
{
    BlockState::Primary
}

/// Takes the block from `state` on `event` to the next state and the action to
/// perform.
pub fn step(config: BlockConfig, dims: Dimensions, state: BlockState, event: Event) -> (r: (
    BlockState,
    Action,
))
    ensures
        step_spec(config, dims, state, event, r.0, r.1),
{
    match state {
        BlockState::Primary => match event {
            Event::Rows { rows, verified, missing } => {
                let action = if config.disable_rpc {
                    Action::VerifyRows(absent_rows(rows.len()))
                } else {
                    Action::FetchFallbackRows(missing)
                };
                (BlockState::Fallback { primary_rows: rows, primary_verified: verified }, action)
            },
            _ => (BlockState::Finished, Action::Fail(Error::UnexpectedEvent)),
        },
        BlockState::Fallback { primary_rows, primary_verified } => match event {
            Event::Rows { rows, verified, missing } => {
                let selected = select_rows(
                    dims.extended_rows(),
                    dims.cols(),
                    config.threshold,
                    &primary_rows,
                    &rows,
                    primary_verified.as_slice(),
                    verified.as_slice(),
                    missing.as_slice(),
                );
                match selected {
                    Err(e) => (BlockState::Finished, Action::Fail(e)),
                    Ok(sel) => {
                        let ghost want = selection(
                            rows_view(primary_rows@),
                            rows_view(rows@),
                            primary_verified@,
                            verified@,
                            dims.extended_rows_spec(),
                        );
                        proof {
                            assert(rows_view(sel.rows@) =~= want);
                        }
                        match plan_row_fetch(&dims, sel.missing_rows.as_slice()) {
                            RowFetch::Nothing => decode_rows(sel.rows),
                            RowFetch::Positions(p) => (
                                BlockState::RowCells { rows: sel.rows, missing_rows: sel.missing_rows },
                                Action::FetchCells(p),
                            ),
                        }
                    },
                }
            },
            _ => (BlockState::Finished, Action::Fail(Error::UnexpectedEvent)),
        },
        BlockState::RowCells { rows, missing_rows } => match event {
            Event::Cells { fetched, unfetched } => {
                let p = copy_positions(&unfetched);
                (BlockState::Columns { rows, missing_rows, fetched, unfetched }, Action::ReconstructColumns(p))
            },
            _ => (BlockState::Finished, Action::Fail(Error::UnexpectedEvent)),
        },
        BlockState::Columns { rows, missing_rows, fetched, unfetched } => match event {
            Event::Columns(columns) => {
                let recovered = reconstruct_rows(
                    &dims,
                    missing_rows.as_slice(),
                    &fetched,
                    unfetched.as_slice(),
                    &columns,
                );
                match recovered {
                    Err(e) => (BlockState::Finished, Action::Fail(e)),
                    Ok(recovered) => {
                        let ghost cells = recovered_cells(fetched@, unfetched@, columns@);
                        if !all_below(&missing_rows, rows.len()) {
                            return (BlockState::Finished, Action::Fail(Error::RowIndexOutOfRange));
                        }
                        let mut rows = rows;
                        proof {
                            assert(crate::pipeline::recovered_view(recovered@) =~= recovered_rows(
                                cells,
                                missing_rows@,
                            ));
                        }
                        splice_rows(&mut rows, &recovered);
                        decode_rows(rows)
                    },
                }
            },
            _ => (BlockState::Finished, Action::Fail(Error::UnexpectedEvent)),
        },
        BlockState::Finished => (BlockState::Finished, Action::Fail(Error::UnexpectedEvent)),
    }
}

/// Reconstruction is never started for a block whose missing rows hold more
/// cells than the threshold: the step that combines both sources then gives the
/// block up, and a step that asks for cells of missing rows does so only within
/// the threshold.
pub proof fn lemma_threshold_stops_reconstruction(
    config: BlockConfig,
    dims: Dimensions,
    primary_rows: Vec<Option<Vec<u8>>>,
    primary_verified: Vec<u32>,
    rows: Vec<Option<Vec<u8>>>,
    verified: Vec<u32>,
    missing: Vec<u32>,
    next: BlockState,
    action: Action,
)
    requires
        step_spec(
            config,
            dims,
            (BlockState::Fallback { primary_rows, primary_verified }),
            (Event::Rows { rows, verified, missing }),
            next,
            action,
        ),
    ensures
        over_threshold(exclude_rows(missing@, primary_verified@).len(), dims.cols, config.threshold)
            ==> fails_with(next, action, Error::TooManyCellsMissing),
        action is FetchCells ==> !over_threshold(
            exclude_rows(missing@, primary_verified@).len(),
            dims.cols,
            config.threshold,
        ),
{
}

} // verus!

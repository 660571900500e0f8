use std::collections::HashMap;

use app_client::cells::{data_cells_from_row, data_cells_from_rows, new_data_cell, Cell, DataCell};
use app_client::matrix::{Dimensions, Error, Position, CHUNK_SIZE};
use app_client::pipeline::{absent_rows, is_block_relevant, select_rows, splice_rows};
use app_client::reconstruct::{
    data_cell, fetch_verified, plan_row_fetch, reconstruct_rows, row_data, sort_data_cells, RowFetch,
};

fn chunk(fill: u8) -> Vec<u8> {
    vec![fill; CHUNK_SIZE]
}

fn pos(row: u32, col: u16) -> Position {
    Position { row, col }
}

fn cell(row: u32, col: u16, fill: u8) -> Cell {
    Cell { position: pos(row, col), data: chunk(fill), proof: vec![0u8; 48] }
}

fn row_of(fills: &[u8]) -> Vec<u8> {
    fills.iter().flat_map(|&f| chunk(f)).collect()
}

#[test]
fn new_data_cell_keeps_position_and_chunk() {
    let c = new_data_cell(3, 5, &chunk(9)).unwrap();
    assert_eq!(c.position, pos(3, 5));
    assert_eq!(c.data, chunk(9));
}

#[test]
fn new_data_cell_rejects_wide_column() {
    assert_eq!(new_data_cell(0, 70_000, &chunk(1)).unwrap_err(), Error::IndexOverflow);
    assert_eq!(new_data_cell(1usize << 33, 0, &chunk(1)).unwrap_err(), Error::IndexOverflow);
}

#[test]
fn new_data_cell_rejects_short_chunk() {
    assert_eq!(new_data_cell(0, 0, &[1u8; 31]).unwrap_err(), Error::InvalidChunkSize);
}

#[test]
fn row_is_sliced_into_whole_chunks() {
    let mut data = row_of(&[1, 2]);
    data.extend_from_slice(&[7u8; 5]);
    let cells = data_cells_from_row(4, &data).unwrap();
    assert_eq!(cells.len(), 2);
    assert_eq!(cells[0].position, pos(4, 0));
    assert_eq!(cells[0].data, chunk(1));
    assert_eq!(cells[1].position, pos(4, 1));
    assert_eq!(cells[1].data, chunk(2));
}

#[test]
fn row_index_overflow_is_an_error() {
    assert_eq!(data_cells_from_row(1usize << 33, &chunk(1)).unwrap_err(), Error::IndexOverflow);
    assert!(data_cells_from_row(1usize << 33, &[1u8; 3]).unwrap().is_empty());
}

#[test]
fn absent_rows_give_no_cells() {
    let rows = vec![Some(row_of(&[1, 2])), None, Some(row_of(&[3, 4]))];
    let cells = data_cells_from_rows(rows).unwrap();
    let positions: Vec<Position> = cells.iter().map(|c| c.position).collect();
    assert_eq!(positions, vec![pos(0, 0), pos(0, 1), pos(2, 0), pos(2, 1)]);
    assert_eq!(cells[3].data, chunk(4));
}

#[test]
fn extended_rows_positions_row_by_row() {
    let dims = Dimensions { rows: 2, cols: 2 };
    assert_eq!(dims.extended_rows(), 4);
    assert_eq!(
        dims.extended_rows_positions(&[3, 1]),
        vec![pos(3, 0), pos(3, 1), pos(1, 0), pos(1, 1)]
    );
}

#[test]
fn fetch_verified_keeps_only_verified_cells() {
    let fetched = vec![cell(0, 0, 1), cell(0, 1, 2), cell(0, 2, 3)];
    let (kept, missing) =
        fetch_verified(&fetched, vec![pos(0, 3)], &[pos(0, 0), pos(0, 2)], vec![pos(0, 1)]);
    let kept_positions: Vec<Position> = kept.iter().map(|c| c.position).collect();
    assert_eq!(kept_positions, vec![pos(0, 0), pos(0, 2)]);
    assert_eq!(kept[1].data, chunk(3));
    assert_eq!(missing, vec![pos(0, 3), pos(0, 1)]);
}

#[test]
fn verified_cell_keeps_column_and_chunk_size() {
    let c = DataCell::from_cell(cell(2, 3, 8));
    assert_eq!(c.position.col, 3);
    assert_eq!(c.data.len(), CHUNK_SIZE);
}

#[test]
fn data_cell_is_taken_from_reconstructed_column() {
    let mut columns: HashMap<u16, Vec<Vec<u8>>> = HashMap::new();
    columns.insert(2, vec![chunk(10), chunk(11)]);
    let c = data_cell(pos(3, 2), &columns).unwrap();
    assert_eq!(c.position, pos(3, 2));
    assert_eq!(c.data, chunk(11));
    assert_eq!(c.data.len(), CHUNK_SIZE);
}

#[test]
fn data_cell_not_found() {
    let mut columns: HashMap<u16, Vec<Vec<u8>>> = HashMap::new();
    columns.insert(2, vec![chunk(10)]);
    assert_eq!(data_cell(pos(0, 1), &columns).unwrap_err(), Error::DataCellNotFound);
    assert_eq!(data_cell(pos(2, 2), &columns).unwrap_err(), Error::DataCellNotFound);
}

#[test]
fn cells_are_sorted_by_row_then_column_stably() {
    let cells = vec![
        DataCell { position: pos(1, 0), data: chunk(1) },
        DataCell { position: pos(0, 2), data: chunk(2) },
        DataCell { position: pos(0, 1), data: chunk(3) },
        DataCell { position: pos(0, 2), data: chunk(4) },
    ];
    let sorted = sort_data_cells(&cells);
    let order: Vec<(Position, u8)> = sorted.iter().map(|c| (c.position, c.data[0])).collect();
    assert_eq!(order, vec![(pos(0, 1), 3), (pos(0, 2), 2), (pos(0, 2), 4), (pos(1, 0), 1)]);
}

#[test]
fn row_data_concatenates_cells_of_one_row() {
    let cells = vec![
        DataCell { position: pos(0, 0), data: chunk(1) },
        DataCell { position: pos(1, 0), data: chunk(2) },
        DataCell { position: pos(0, 1), data: chunk(3) },
    ];
    assert_eq!(row_data(&cells, 0), row_of(&[1, 3]));
    assert!(row_data(&cells, 5).is_empty());
}

#[test]
fn empty_missing_rows_need_no_fetch() {
    let dims = Dimensions { rows: 2, cols: 4 };
    assert!(matches!(plan_row_fetch(&dims, &[]), RowFetch::Nothing));
    let empty = Dimensions { rows: 2, cols: 0 };
    assert!(matches!(plan_row_fetch(&empty, &[1]), RowFetch::Nothing));
    match plan_row_fetch(&dims, &[1]) {
        RowFetch::Positions(p) => assert_eq!(p, vec![pos(1, 0), pos(1, 1), pos(1, 2), pos(1, 3)]),
        RowFetch::Nothing => panic!("positions expected"),
    }
}

fn four_by_four_columns(fill_of_slot: impl Fn(u16) -> u8) -> HashMap<u16, Vec<Vec<u8>>> {
    let mut columns: HashMap<u16, Vec<Vec<u8>>> = HashMap::new();
    for c in 0..4u16 {
        columns.insert(c, vec![chunk(fill_of_slot(c)), chunk(99)]);
    }
    columns
}

#[test]
fn missing_row_is_reconstructed_from_columns() {
    let dims = Dimensions { rows: 2, cols: 4 };
    let unfetched = vec![pos(1, 0), pos(1, 1), pos(1, 2), pos(1, 3)];
    let columns = four_by_four_columns(|c| 20 + c as u8);
    let rows = reconstruct_rows(&dims, &[1], &Vec::new(), &unfetched, &columns).unwrap();
    assert_eq!(rows, vec![(1, row_of(&[20, 21, 22, 23]))]);
    assert_eq!(rows[0].1.len(), 4 * CHUNK_SIZE);
}

#[test]
fn fetched_and_reconstructed_cells_are_merged_in_column_order() {
    let dims = Dimensions { rows: 2, cols: 4 };
    let fetched = vec![cell(1, 3, 7), cell(1, 0, 5)];
    let unfetched = vec![pos(1, 2), pos(1, 1)];
    let columns = four_by_four_columns(|c| 30 + c as u8);
    let rows = reconstruct_rows(&dims, &[1], &fetched, &unfetched, &columns).unwrap();
    assert_eq!(rows, vec![(1, row_of(&[5, 31, 32, 7]))]);
}

#[test]
fn short_reconstructed_row_is_rejected() {
    let dims = Dimensions { rows: 2, cols: 4 };
    let unfetched = vec![pos(1, 0), pos(1, 1), pos(1, 2), pos(1, 3)];
    let mut columns = four_by_four_columns(|c| c as u8);
    columns.insert(3, vec![vec![1u8; CHUNK_SIZE - 1], chunk(99)]);
    assert_eq!(
        reconstruct_rows(&dims, &[1], &Vec::new(), &unfetched, &columns).unwrap_err(),
        Error::InvalidRowSize
    );
}

#[test]
fn incomplete_row_is_rejected() {
    let dims = Dimensions { rows: 2, cols: 4 };
    let unfetched = vec![pos(1, 0), pos(1, 1)];
    let columns = four_by_four_columns(|c| c as u8);
    assert_eq!(
        reconstruct_rows(&dims, &[1], &Vec::new(), &unfetched, &columns).unwrap_err(),
        Error::InvalidRowSize
    );
}

#[test]
fn missing_reconstructed_cell_is_an_error() {
    let dims = Dimensions { rows: 2, cols: 4 };
    let columns: HashMap<u16, Vec<Vec<u8>>> = HashMap::new();
    assert_eq!(
        reconstruct_rows(&dims, &[1], &Vec::new(), &[pos(1, 0)], &columns).unwrap_err(),
        Error::DataCellNotFound
    );
}

#[test]
fn primary_row_recovered_by_reconstruction_decodes_like_direct_rows() {
    // Four extended rows by four columns; the application has rows 0 and 1.
    // Row 0 comes verified from the primary source, row 1 from nowhere.
    let dims = Dimensions { rows: 2, cols: 4 };
    let row0 = row_of(&[1, 2, 3, 4]);
    let row1 = row_of(&[5, 6, 7, 8]);
    let primary = vec![Some(row0.clone()), None, None, None];
    let fallback = absent_rows(primary.len());
    let sel = select_rows(4, 4, 4, &primary, &fallback, &[0], &[], &[1]).unwrap();
    assert_eq!(sel.missing_rows, vec![1]);
    let positions = match plan_row_fetch(&dims, &sel.missing_rows) {
        RowFetch::Positions(p) => p,
        RowFetch::Nothing => panic!("positions expected"),
    };
    let columns = four_by_four_columns(|c| 5 + c as u8);
    let recovered =
        reconstruct_rows(&dims, &sel.missing_rows, &Vec::new(), &positions, &columns).unwrap();
    let mut rows = sel.rows;
    splice_rows(&mut rows, &recovered);
    let from_reconstruction = data_cells_from_rows(rows).unwrap();
    let direct = data_cells_from_rows(vec![Some(row0), Some(row1), None, None]).unwrap();
    let a: Vec<(Position, Vec<u8>)> =
        from_reconstruction.into_iter().map(|c| (c.position, c.data)).collect();
    let b: Vec<(Position, Vec<u8>)> = direct.into_iter().map(|c| (c.position, c.data)).collect();
    assert_eq!(a, b);
}

#[test]
fn fallback_row_avoids_reconstruction() {
    let dims = Dimensions { rows: 2, cols: 4 };
    let row0 = row_of(&[1, 2, 3, 4]);
    let row1 = row_of(&[5, 6, 7, 8]);
    let primary = vec![Some(row0.clone()), None, None, None];
    let fallback = vec![None, Some(row1.clone()), None, None];
    let sel = select_rows(4, 4, 4, &primary, &fallback, &[0], &[1], &[0]).unwrap();
    assert!(sel.missing_rows.is_empty());
    assert!(matches!(plan_row_fetch(&dims, &sel.missing_rows), RowFetch::Nothing));
    assert_eq!(sel.rows, vec![Some(row0), Some(row1), None, None]);
}

#[test]
fn too_many_missing_cells_abort_the_block() {
    let primary = vec![None, None, None, None];
    let fallback = absent_rows(4);
    let r = select_rows(4, 4, 10, &primary, &fallback, &[], &[], &[0, 1, 2]);
    assert!(matches!(r, Err(Error::TooManyCellsMissing)));
    let r = select_rows(4, 4, 12, &primary, &fallback, &[], &[], &[0, 1, 2]);
    assert_eq!(r.unwrap().missing_rows, vec![0, 1, 2]);
}

#[test]
fn unverified_rows_are_not_selected() {
    let primary = vec![Some(row_of(&[1])), Some(row_of(&[2])), None];
    let fallback = vec![None, Some(row_of(&[3])), Some(row_of(&[4]))];
    let sel = select_rows(8, 1, 100, &primary, &fallback, &[0], &[2], &[1]).unwrap();
    assert_eq!(sel.rows, vec![Some(row_of(&[1])), None, Some(row_of(&[4]))]);
}

#[test]
fn rows_verified_by_primary_are_not_missing() {
    let primary = vec![Some(row_of(&[1])), Some(row_of(&[2])), None, None];
    let fallback = absent_rows(4);
    let sel = select_rows(4, 1, 100, &primary, &fallback, &[0, 1], &[], &[0, 1, 2, 3]).unwrap();
    assert_eq!(sel.missing_rows, vec![2, 3]);
}

#[test]
fn selection_is_bounded_by_extended_rows() {
    let primary = vec![Some(row_of(&[1])), Some(row_of(&[2])), Some(row_of(&[3]))];
    let fallback = absent_rows(3);
    let sel = select_rows(2, 1, 100, &primary, &fallback, &[0, 1, 2], &[], &[]).unwrap();
    assert_eq!(sel.rows.len(), 2);
}

#[test]
fn recovered_rows_are_spliced_by_index() {
    let mut rows = vec![None, Some(vec![1u8]), None];
    splice_rows(&mut rows, &vec![(2, vec![7u8]), (1, vec![8u8])]);
    assert_eq!(rows, vec![None, Some(vec![8u8]), Some(vec![7u8])]);
}

#[test]
fn irrelevant_blocks_are_skipped() {
    assert!(is_block_relevant(4, &[1, 2], 2));
    assert!(!is_block_relevant(0, &[1, 2], 2));
    assert!(!is_block_relevant(4, &[1, 3], 2));
}

#[test]
fn error_messages() {
    assert_eq!(Error::TooManyCellsMissing.message(), "Too many cells are missing");
    assert_eq!(Error::InvalidRowSize.message(), "Row size is not valid after reconstruction");
    assert_eq!(Error::DataCellNotFound.message(), "Data cell not found");
}

#[test]
fn identical_inputs_give_identical_rows() {
    let dims = Dimensions { rows: 2, cols: 4 };
    let fetched = vec![cell(1, 3, 7), cell(1, 0, 5)];
    let mut other_proofs = fetched.clone();
    other_proofs[0].proof = vec![1u8; 48];
    let unfetched = vec![pos(1, 2), pos(1, 1)];
    let columns = four_by_four_columns(|c| 40 + c as u8);
    let first = reconstruct_rows(&dims, &[1], &fetched, &unfetched, &columns).unwrap();
    let second = reconstruct_rows(&dims, &[1], &other_proofs, &unfetched, &columns).unwrap();
    assert_eq!(first, second);
    let first_cells: Vec<(Position, Vec<u8>)> = data_cells_from_rows(vec![Some(first[0].1.clone())])
        .unwrap()
        .into_iter()
        .map(|c| (c.position, c.data))
        .collect();
    let second_cells: Vec<(Position, Vec<u8>)> = data_cells_from_rows(vec![Some(second[0].1.clone())])
        .unwrap()
        .into_iter()
        .map(|c| (c.position, c.data))
        .collect();
    assert_eq!(first_cells, second_cells);
}

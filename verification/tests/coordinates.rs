use minesweeper::{Board, MapError};

#[test]
fn get_index_inside() {
    let board = Board::with_bombs(4, 3, &vec![]);
    assert!(matches!(board.get_index(0, 0), Ok(0)));
    assert!(matches!(board.get_index(0, 3), Ok(3)));
    assert!(matches!(board.get_index(1, 0), Ok(4)));
    assert!(matches!(board.get_index(2, 3), Ok(11)));
    assert!(matches!(board.get_index(1, 2), Ok(6)));
}

#[test]
fn get_index_outside_is_out_of_bounds() {
    let board = Board::with_bombs(4, 3, &vec![]);
    assert!(matches!(board.get_index(3, 0), Err(MapError::OutOfBounds)));
    assert!(matches!(board.get_index(0, 4), Err(MapError::OutOfBounds)));
    assert!(matches!(board.get_index(3, 4), Err(MapError::OutOfBounds)));
    assert!(matches!(board.get_index(u32::MAX, 0), Err(MapError::OutOfBounds)));
    assert!(matches!(board.get_index(0, u32::MAX), Err(MapError::OutOfBounds)));
}

#[test]
fn get_index_on_empty_board() {
    let board = Board::default();
    assert!(matches!(board.get_index(0, 0), Err(MapError::OutOfBounds)));
}

#[test]
fn get_coordinates_exact() {
    let board = Board::with_bombs(4, 3, &vec![]);
    assert_eq!(board.get_coordinates(0), (0, 0));
    assert_eq!(board.get_coordinates(3), (0, 3));
    assert_eq!(board.get_coordinates(4), (1, 0));
    assert_eq!(board.get_coordinates(6), (1, 2));
    assert_eq!(board.get_coordinates(11), (2, 3));
}

#[test]
fn get_coordinates_inverts_get_index() {
    let board = Board::with_bombs(5, 7, &vec![]);
    for row in 0..7u32 {
        for col in 0..5u32 {
            let idx = board.get_index(row, col).unwrap();
            assert_eq!(idx, (row * 5 + col) as usize);
            assert_eq!(board.get_coordinates(idx), (row, col));
        }
    }
}

#[test]
fn get_tile_inside_and_outside() {
    let board = Board::with_bombs(2, 2, &vec![3]);
    assert!(board.get_tile(1, 1).unwrap().bomb);
    assert!(!board.get_tile(0, 0).unwrap().bomb);
    assert_eq!(board.get_tile(0, 1).unwrap().num_bombs, 1);
    assert!(board.get_tile(2, 0).is_none());
    assert!(board.get_tile(0, 2).is_none());
}

#[test]
fn neighbors_of_centre() {
    let board = Board::with_bombs(3, 3, &vec![]);
    assert_eq!(board.get_neighbors_idxs(1, 1), Some(vec![0, 1, 2, 3, 5, 6, 7, 8]));
}

#[test]
fn neighbors_of_corners() {
    let board = Board::with_bombs(4, 3, &vec![]);
    assert_eq!(board.get_neighbors_idxs(0, 0), Some(vec![1, 4, 5]));
    assert_eq!(board.get_neighbors_idxs(0, 3), Some(vec![2, 6, 7]));
    assert_eq!(board.get_neighbors_idxs(2, 0), Some(vec![4, 5, 9]));
    assert_eq!(board.get_neighbors_idxs(2, 3), Some(vec![6, 7, 10]));
}

#[test]
fn neighbors_of_edges() {
    let board = Board::with_bombs(4, 3, &vec![]);
    assert_eq!(board.get_neighbors_idxs(0, 1), Some(vec![0, 2, 4, 5, 6]));
    assert_eq!(board.get_neighbors_idxs(1, 0), Some(vec![0, 1, 5, 8, 9]));
    assert_eq!(board.get_neighbors_idxs(1, 3), Some(vec![2, 3, 6, 10, 11]));
}

#[test]
fn neighbors_on_single_row_and_single_column() {
    let row = Board::with_bombs(3, 1, &vec![]);
    assert_eq!(row.get_neighbors_idxs(0, 0), Some(vec![1]));
    assert_eq!(row.get_neighbors_idxs(0, 1), Some(vec![0, 2]));
    assert_eq!(row.get_neighbors_idxs(0, 2), Some(vec![1]));
    let column = Board::with_bombs(1, 3, &vec![]);
    assert_eq!(column.get_neighbors_idxs(0, 0), Some(vec![1]));
    assert_eq!(column.get_neighbors_idxs(1, 0), Some(vec![0, 2]));
}

#[test]
fn neighbors_of_single_tile_is_empty() {
    let board = Board::with_bombs(1, 1, &vec![]);
    assert_eq!(board.get_neighbors_idxs(0, 0), Some(vec![]));
}

#[test]
fn neighbors_of_position_outside_drops_what_is_outside() {
    let board = Board::with_bombs(3, 3, &vec![]);
    // just below the last row: the last row's tiles around column 1 remain
    assert_eq!(board.get_neighbors_idxs(3, 1), Some(vec![6, 7, 8]));
    // far away: nothing remains
    assert_eq!(board.get_neighbors_idxs(10, 10), Some(vec![]));
    assert_eq!(board.get_neighbors_idxs(u32::MAX, u32::MAX), Some(vec![]));
}

#[test]
fn map_error_message() {
    assert_eq!(MapError::OutOfBounds.message(), "Map error");
    assert_eq!(format!("{:?}", MapError::OutOfBounds), "OutOfBounds");
}

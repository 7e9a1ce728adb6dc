use minesweeper::Board;

#[test]
fn one_row_of_three_with_mine_at_the_end() {
    let mut board = Board::with_bombs(3, 1, &vec![2]);
    let labels: Vec<i32> = board.tiles().iter().map(|t| t.num_bombs).collect();
    // The mine touches the middle tile only: the first tile has no mine
    // around it.
    assert_eq!(labels, vec![0, 1, -1]);

    // The first tile has label 0, so its reveal spreads to the middle tile
    // and stops there.
    board.set_visible(0, 0);
    let visible: Vec<bool> = board.tiles().iter().map(|t| t.visible).collect();
    assert_eq!(visible, vec![true, true, false]);
    assert!(!board.check_victory());

    board.toggle_flag(0, 2);
    let tiles = board.tiles();
    assert!(tiles[0].visible && !tiles[0].flagged);
    assert!(tiles[1].visible && !tiles[1].flagged);
    assert!(!tiles[2].visible && tiles[2].flagged);
    assert!(board.check_victory());
}

#[test]
fn one_row_of_three_reveal_of_numbered_tile_shows_only_it() {
    let mut board = Board::with_bombs(3, 1, &vec![2]);
    board.set_visible(0, 1);
    let visible: Vec<bool> = board.tiles().iter().map(|t| t.visible).collect();
    assert_eq!(visible, vec![false, true, false]);
}

#[test]
fn one_column_of_three_with_mine_at_the_end() {
    let mut board = Board::with_bombs(1, 3, &vec![2]);
    let labels: Vec<i32> = board.tiles().iter().map(|t| t.num_bombs).collect();
    assert_eq!(labels, vec![0, 1, -1]);
    board.set_visible(1, 0);
    let visible: Vec<bool> = board.tiles().iter().map(|t| t.visible).collect();
    assert_eq!(visible, vec![false, true, false]);
}

#[test]
fn three_by_three_without_mines_reveals_all_from_the_centre() {
    let mut board = Board::with_bombs(3, 3, &vec![]);
    for tile in board.tiles().iter() {
        assert_eq!(tile.num_bombs, 0);
    }
    board.set_visible(1, 1);
    assert_eq!(board.tiles().len(), 9);
    assert!(board.tiles().iter().all(|t| t.visible));
    assert!(board.check_victory());
}

#[test]
fn three_by_three_without_mines_from_new() {
    let mut board = Board::new(3, 3, 0);
    board.set_visible(1, 1);
    assert!(board.tiles().iter().all(|t| t.visible && !t.bomb && t.num_bombs == 0));
}

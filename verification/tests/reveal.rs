use minesweeper::{Board, Tile};
use std::collections::VecDeque;

fn snapshot(board: &Board) -> Vec<(bool, bool, bool, i32)> {
    board.tiles().iter().map(|t| (t.bomb, t.flagged, t.visible, t.num_bombs)).collect()
}

fn visible(board: &Board) -> Vec<bool> {
    board.tiles().iter().map(|t| t.visible).collect()
}

/// The reveal of `(row, col)` worked out first come, first served, on a copy
/// of the tiles.
fn reveal_breadth_first(board: &Board, row: u32, col: u32) -> Vec<bool> {
    let width = board.width() as i64;
    let height = board.height() as i64;
    let mut tiles: Vec<Tile> = board.tiles().clone();
    if row as i64 >= height || col as i64 >= width {
        return tiles.iter().map(|t| t.visible).collect();
    }
    let start = (row as i64 * width + col as i64) as usize;
    tiles[start].visible = true;
    if tiles[start].num_bombs != 0 {
        return tiles.iter().map(|t| t.visible).collect();
    }
    let mut handled = vec![false; tiles.len()];
    let mut queue = VecDeque::new();
    queue.push_back(start);
    while let Some(idx) = queue.pop_front() {
        if handled[idx] {
            continue;
        }
        handled[idx] = true;
        if tiles[idx].num_bombs == 0 {
            tiles[idx].visible = true;
            let r = idx as i64 / width;
            let c = idx as i64 % width;
            // the offsets in the opposite order, too
            for dr in [1i64, 0, -1] {
                for dc in [1i64, 0, -1] {
                    let (nr, nc) = (r + dr, c + dc);
                    if (dr != 0 || dc != 0) && nr >= 0 && nr < height && nc >= 0 && nc < width {
                        queue.push_back((nr * width + nc) as usize);
                    }
                }
            }
        } else if !tiles[idx].flagged {
            tiles[idx].visible = true;
        }
    }
    tiles.iter().map(|t| t.visible).collect()
}

#[test]
fn set_visible_on_numbered_tile_reveals_only_it() {
    let mut board = Board::with_bombs(3, 3, &vec![0]);
    board.set_visible(1, 1);
    assert_eq!(
        visible(&board),
        vec![false, false, false, false, true, false, false, false, false]
    );
}

#[test]
fn set_visible_on_mine_reveals_only_it() {
    let mut board = Board::with_bombs(3, 3, &vec![4]);
    board.set_visible(1, 1);
    assert_eq!(
        visible(&board),
        vec![false, false, false, false, true, false, false, false, false]
    );
    assert!(!board.check_victory());
}

#[test]
fn set_visible_cascades_to_the_numbered_border() {
    // 0 2 B 2 0
    // 0 3 B 3 0
    // 0 2 B 2 0
    let mut board = Board::with_bombs(5, 3, &vec![2, 7, 12]);
    let labels: Vec<i32> = board.tiles().iter().map(|t| t.num_bombs).collect();
    assert_eq!(labels, vec![0, 2, -1, 2, 0, 0, 3, -1, 3, 0, 0, 2, -1, 2, 0]);
    board.set_visible(0, 0);
    assert_eq!(
        visible(&board),
        vec![
            true, true, false, false, false, //
            true, true, false, false, false, //
            true, true, false, false, false,
        ]
    );
    board.set_visible(2, 4);
    assert_eq!(
        visible(&board),
        vec![
            true, true, false, true, true, //
            true, true, false, true, true, //
            true, true, false, true, true,
        ]
    );
}

#[test]
fn set_visible_cascade_passes_through_diagonal() {
    // 0 0 1 B
    // 0 0 1 1
    // 1 1 0 0
    // B 1 0 0
    // The two zero regions touch diagonally at (1, 1) and (2, 2): a reveal
    // in one of them spreads over both.
    let mut board = Board::with_bombs(4, 4, &vec![3, 12]);
    board.set_visible(0, 0);
    assert_eq!(
        visible(&board),
        vec![
            true, true, true, false, //
            true, true, true, true, //
            true, true, true, true, //
            false, true, true, true,
        ]
    );
}

#[test]
fn set_visible_leaves_mines_and_labels_alone() {
    let mut board = Board::with_bombs(4, 4, &vec![3, 12]);
    let before = snapshot(&board);
    board.set_visible(0, 0);
    board.set_visible(3, 3);
    board.toggle_flag(0, 3);
    board.reveal_all();
    let after = snapshot(&board);
    for idx in 0..before.len() {
        assert_eq!(before[idx].0, after[idx].0);
        assert_eq!(before[idx].3, after[idx].3);
    }
}

#[test]
fn cascade_stops_at_flagged_numbered_tile() {
    // 0 0 1 B
    // 0 0 1 1
    // 1 1 0 0
    // B 1 0 0
    let mut board = Board::with_bombs(4, 4, &vec![3, 12]);
    board.toggle_flag(0, 2); // label 1, next to the zero region
    board.toggle_flag(2, 1); // label 1, next to the zero region
    board.set_visible(0, 0);
    let tiles = board.tiles();
    assert!(!tiles[2].visible);
    assert!(tiles[2].flagged);
    assert!(!tiles[9].visible);
    assert!(tiles[9].flagged);
    // the other border tiles are revealed
    assert!(tiles[6].visible);
    assert!(tiles[8].visible);
    assert!(tiles[10].visible);
    // the zero tiles right of the flagged border are reached through (2, 2)
    assert!(tiles[11].visible);
}

#[test]
fn cascade_reveals_flagged_zero_tile_and_keeps_its_flag() {
    let mut board = Board::with_bombs(3, 3, &vec![]);
    board.toggle_flag(0, 0);
    board.set_visible(2, 2);
    assert!(board.tiles()[0].visible);
    assert!(board.tiles()[0].flagged);
    assert_eq!(visible(&board), vec![true; 9]);
}

#[test]
fn flagged_wall_of_numbered_tiles_halts_nothing_behind_it_unreached() {
    // one row: 0 0 1 B 1 0 0; the right zero region is out of reach anyway
    let mut board = Board::with_bombs(7, 1, &vec![3]);
    board.toggle_flag(0, 2);
    board.set_visible(0, 0);
    assert_eq!(visible(&board), vec![true, true, false, false, false, false, false]);
}

#[test]
fn set_visible_reveals_a_flagged_tile_when_asked_directly() {
    let mut board = Board::with_bombs(3, 3, &vec![0]);
    board.toggle_flag(1, 1);
    board.set_visible(1, 1);
    assert!(board.tiles()[4].visible);
    assert!(board.tiles()[4].flagged);
}

#[test]
fn set_visible_out_of_bounds_changes_nothing() {
    let mut board = Board::with_bombs(4, 3, &vec![1, 6]);
    board.toggle_flag(0, 0);
    board.set_visible(2, 3);
    let before = snapshot(&board);
    board.set_visible(3, 0);
    board.set_visible(0, 4);
    board.set_visible(3, 4);
    board.set_visible(u32::MAX, u32::MAX);
    assert_eq!(snapshot(&board), before);
    assert_eq!(board.width(), 4);
    assert_eq!(board.height(), 3);
}

#[test]
fn toggle_flag_out_of_bounds_changes_nothing() {
    let mut board = Board::with_bombs(4, 3, &vec![1, 6]);
    board.toggle_flag(1, 1);
    let before = snapshot(&board);
    board.toggle_flag(3, 0);
    board.toggle_flag(0, 4);
    board.toggle_flag(u32::MAX, 0);
    assert_eq!(snapshot(&board), before);
}

#[test]
fn toggle_flag_flips_one_flag() {
    let mut board = Board::with_bombs(3, 2, &vec![5]);
    let before = snapshot(&board);
    board.toggle_flag(1, 2);
    let mut expected = before.clone();
    expected[5].1 = true;
    assert_eq!(snapshot(&board), expected);
    board.toggle_flag(1, 2);
    assert_eq!(snapshot(&board), before);
}

#[test]
fn toggle_flag_on_revealed_tile_is_allowed() {
    let mut board = Board::with_bombs(3, 3, &vec![0]);
    board.set_visible(1, 1);
    board.toggle_flag(1, 1);
    assert!(board.tiles()[4].visible);
    assert!(board.tiles()[4].flagged);
}

#[test]
fn reveal_all_reveals_everything_and_keeps_flags() {
    let mut board = Board::with_bombs(4, 3, &vec![0, 7]);
    board.toggle_flag(0, 0);
    board.toggle_flag(2, 2);
    let before = snapshot(&board);
    board.reveal_all();
    let after = snapshot(&board);
    for idx in 0..before.len() {
        assert_eq!(after[idx], (before[idx].0, before[idx].1, true, before[idx].3));
    }
}

#[test]
fn revealed_tiles_stay_revealed() {
    let mut board = Board::with_bombs(5, 5, &vec![0, 6, 24]);
    let steps: Vec<(u8, u32, u32)> = vec![
        (0, 4, 0),
        (1, 4, 0),
        (1, 2, 2),
        (0, 0, 1),
        (1, 0, 1),
        (0, 9, 9),
        (0, 2, 2),
        (1, 2, 2),
        (0, 0, 0),
        (2, 0, 0),
        (1, 3, 3),
        (0, 3, 3),
    ];
    let mut seen = visible(&board);
    for (kind, row, col) in steps {
        match kind {
            0 => board.set_visible(row, col),
            1 => board.toggle_flag(row, col),
            _ => board.reveal_all(),
        }
        let now = visible(&board);
        for idx in 0..seen.len() {
            assert!(!seen[idx] || now[idx], "tile {} was hidden again", idx);
        }
        seen = now;
    }
    assert_eq!(seen, vec![true; 25]);
}

#[test]
fn cascade_agrees_with_breadth_first_traversal() {
    let layouts: Vec<(u32, u32, Vec<usize>)> = vec![
        (4, 4, vec![3, 12]),
        (6, 5, vec![0, 13, 29]),
        (8, 8, vec![9, 18, 27, 36, 45, 54]),
        (5, 5, vec![]),
        (7, 1, vec![3]),
        (1, 7, vec![0, 6]),
        (6, 6, vec![14, 15, 20, 21]),
    ];
    for (width, height, bombs) in layouts {
        for flag_every in [0usize, 2, 3] {
            for row in 0..height {
                for col in 0..width {
                    let mut board = Board::with_bombs(width, height, &bombs);
                    if flag_every > 0 {
                        for idx in (0..(width * height) as usize).step_by(flag_every) {
                            let (r, c) = board.get_coordinates(idx);
                            board.toggle_flag(r, c);
                        }
                    }
                    let expected = reveal_breadth_first(&board, row, col);
                    let flags: Vec<bool> = board.tiles().iter().map(|t| t.flagged).collect();
                    board.set_visible(row, col);
                    assert_eq!(visible(&board), expected);
                    let flags_after: Vec<bool> =
                        board.tiles().iter().map(|t| t.flagged).collect();
                    assert_eq!(flags_after, flags);
                }
            }
        }
    }
}

#[test]
fn cascade_over_a_large_empty_board() {
    let mut board = Board::with_bombs(300, 300, &vec![]);
    board.set_visible(150, 150);
    assert!(board.tiles().iter().all(|t| t.visible));
}

#[test]
fn second_reveal_of_the_same_tile_changes_nothing() {
    let mut board = Board::with_bombs(4, 4, &vec![3, 12]);
    board.set_visible(0, 0);
    let once = snapshot(&board);
    board.set_visible(0, 0);
    assert_eq!(snapshot(&board), once);
}

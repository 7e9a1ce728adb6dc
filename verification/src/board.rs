//! The board and its operations.

use vstd::prelude::*;
use std::collections::HashSet;
use crate::cascade::{lemma_replaces_last, lemma_unhandled_insert, unhandled};
use crate::error::MapError;
use crate::grid::Grid;
use crate::sampling::{choose_multiple, lemma_selection_of_indices};
use crate::tile::{Tile, BOMB_LABEL};

verus! {

/// A rectangular grid of tiles, stored row by row. Its dimensions, its mines
/// and its labels are fixed when it is built; what is revealed and what is
/// flagged changes as the game goes on.
///
/// Every board that this module hands out is well formed ([`Grid::wf`]), and
/// every operation keeps it so.
#[derive(Debug)]
pub struct Board {
    width: u32,
    height: u32,
    tiles: Vec<Tile>,
}

impl View for Board {
    type V = Grid;

    closed spec fn view(&self) -> Grid {
        Grid { width: self.width as nat, height: self.height as nat, tiles: self.tiles@ }
    }
}

impl Default for Board {
    /// The board without any tile.
    fn default() -> (board: Board)
        ensures
            board@ == Grid::blank(0, 0),
            board@.wf(),
    {
        let board = Board { width: 0, height: 0, tiles: Vec::new() };
        proof {
            assert(board@.tiles =~= Grid::blank(0, 0).tiles);
        }
        board
    }
}

impl Board {
    /// A board of the given dimensions with `num_bombs` mines on tiles drawn
    /// at random, or with a mine on every tile if it has fewer tiles than
    /// that. Nothing is revealed and nothing is flagged.
    ///
    /// Which tiles hold the mines differs from call to call; whatever was
    /// drawn, the board is the one that [`Board::with_bombs`] builds from
    /// some list of distinct indices of the right length.
    pub fn new(width: u32, height: u32, num_bombs: u32) -> (board: Board)
        requires
            width * height <= u32::MAX,
        ensures
            exists|bombs: Seq<usize>|
                #![auto]
                {
                    &&& bombs.no_duplicates()
                    &&& bombs.len() == (if num_bombs <= width * height {
                        num_bombs as int
                    } else {
                        width * height
                    })
                    &&& forall|k: int| 0 <= k < bombs.len() ==> bombs[k] < width * height
                    &&& board@ == Grid::fresh(width as nat, height as nat, bombs)
                },
            board@.wf(),
            board@.width == width,
            board@.height == height,
            board@.mine_count() == (if num_bombs <= width * height {
                num_bombs as int
            } else {
                width * height
            }),
            forall|idx: int|
                0 <= idx < board@.tiles.len() ==> !(#[trigger] board@.tiles[idx]).visible
                    && !board@.tiles[idx].flagged,
            num_bombs >= width * height ==> forall|idx: int|
                0 <= idx < board@.tiles.len() ==> (#[trigger] board@.tiles[idx]).bomb,
    {
        let num_entries = (width * height) as usize;
        let mut values: Vec<usize> = Vec::new();
        for i in 0..num_entries
            invariant
                values@.len() == i,
                forall|k: int| 0 <= k < i ==> values@[k] == k,
        {
            values.push(i);
        }
        let mut rng = rand::thread_rng();
        let idxs = choose_multiple(&values, &mut rng, num_bombs as usize);
        proof {
            lemma_selection_of_indices(values@, num_bombs as nat, idxs@);
        }
        let board = Board::with_bombs(width, height, &idxs);
        proof {
            if num_bombs >= width * height {
                board@.lemma_all_mined();
            }
        }
        board
    }

    /// A board of the given dimensions with a mine on each tile whose index
    /// `bombs` lists, every label set, nothing revealed and nothing flagged.
    pub fn with_bombs(width: u32, height: u32, bombs: &Vec<usize>) -> (board: Board)
        requires
            width * height <= u32::MAX,
            forall|k: int| 0 <= k < bombs@.len() ==> #[trigger] bombs@[k] < width * height,
        ensures
            board@ == Grid::fresh(width as nat, height as nat, bombs@),
            board@.wf(),
            board@.width == width,
            board@.height == height,
            bombs@.no_duplicates() ==> board@.mine_count() == bombs@.len(),
    {
        let mut tiles: Vec<Tile> = Vec::new();
        let num_entries = (width * height) as usize;
        for i in 0..num_entries
            invariant
                tiles@.len() == i,
                forall|idx: int| 0 <= idx < i ==> tiles@[idx] == Tile::blank(),
        {
            tiles.push(Tile::new());
        }
        let ghost blank = Grid::blank(width as nat, height as nat);
        for k in 0..bombs.len()
            invariant
                num_entries == width * height,
                tiles@.len() == num_entries,
                blank == Grid::blank(width as nat, height as nat),
                forall|k: int| 0 <= k < bombs@.len() ==> #[trigger] bombs@[k] < width * height,
                tiles@ == blank.mined(bombs@.take(k as int)).tiles,
        {
            let idx = bombs[k];
            tiles[idx].bomb = true;
            proof {
                assert(bombs@.take(k + 1) =~= bombs@.take(k as int).push(idx));
                blank.lemma_mined_push(bombs@.take(k as int), idx);
            }
        }
        let mut board = Board { width, height, tiles };
        proof {
            assert(bombs@.take(bombs@.len() as int) =~= bombs@);
        }
        board.set_bombs_numbers();
        proof {
            let mined = blank.mined(bombs@);
            mined.lemma_relabelled();
            if bombs@.no_duplicates() {
                board@.lemma_mine_count(bombs@);
            }
        }
        board
    }

    /// The number of columns.
    pub fn width(&self) -> (width: u32)
        ensures
            width == self@.width,
    {
        self.width
    }

    /// The number of rows.
    pub fn height(&self) -> (height: u32)
        ensures
            height == self@.height,
    {
        self.height
    }

    /// All tiles, row by row.
    pub fn tiles(&self) -> (tiles: &Vec<Tile>)
        ensures
            tiles@ == self@.tiles,
    {
        &self.tiles
    }

    /// Reveals the tile at `(row, col)`; if its label is 0, the reveal
    /// spreads from it as a cascade. A position outside the board leaves the
    /// board as it is. Whether the tile is flagged makes no difference.
    pub fn set_visible(&mut self, row: u32, col: u32)
        requires
            old(self)@.wf(),
        ensures
            final(self)@ == old(self)@.set_visible(row as int, col as int),
            final(self)@.wf(),
            old(self)@.same_ground(final(self)@),
            old(self)@.revealed_stays(final(self)@),
            !old(self)@.in_bounds(row as int, col as int) ==> *final(self) == *old(self),
    {
        let ghost before = self@;
        proof {
            if before.in_bounds(row as int, col as int) {
                before.lemma_index(row as int, col as int);
            }
        }
        let tile = self.get_mut_tile(row, col);
        match tile {
            Some(t) => {
                t.set_visible();
                if t.num_bombs == 0 {
                    let idx: usize = self.get_index(row, col).unwrap();
                    self.cascade_reveal(idx);
                }
            },
            None => (),
        }
        proof {
            before.law_set_visible_keeps(row as int, col as int);
        }
    }

    /// Flips the flag of the tile at `(row, col)`. A position outside the
    /// board leaves the board as it is.
    pub fn toggle_flag(&mut self, row: u32, col: u32)
        requires
            old(self)@.wf(),
        ensures
            final(self)@ == old(self)@.toggle_flag(row as int, col as int),
            final(self)@.wf(),
            old(self)@.same_ground(final(self)@),
            old(self)@.revealed_stays(final(self)@),
            !old(self)@.in_bounds(row as int, col as int) ==> *final(self) == *old(self),
    {
        let tile = self.get_mut_tile(row, col);
        match tile {
            Some(t) => t.toggle_flagged(),
            None => (),
        }
        proof {
            old(self)@.law_toggle_flag_keeps(row as int, col as int);
        }
    }

    /// Reveals every tile, whatever it holds and whether or not it is
    /// flagged.
    pub fn reveal_all(&mut self)
        requires
            old(self)@.wf(),
        ensures
            final(self)@ == old(self)@.reveal_all(),
            final(self)@.wf(),
            old(self)@.same_ground(final(self)@),
            old(self)@.revealed_stays(final(self)@),
    {
        let ghost before = self@;
        let height = self.height;
        let width = self.width;
        proof {
            assert(0 * before.width == 0 && before.height * before.width == before.area())
                by (nonlinear_arith);
        }
        for row in 0..height
            invariant
                height == before.height,
                width == before.width,
                before.height * before.width == before.area(),
                before.shaped(),
                self@.width == before.width,
                self@.height == before.height,
                self@.tiles.len() == before.tiles.len(),
                forall|idx: int|
                    0 <= idx < before.tiles.len() ==> #[trigger] self@.tiles[idx] == (if idx
                        < row * before.width {
                        before.tiles[idx].shown()
                    } else {
                        before.tiles[idx]
                    }),
        {
            for col in 0..width
                invariant
                    row < height == before.height,
                    width == before.width,
                    before.shaped(),
                    self@.width == before.width,
                    self@.height == before.height,
                    self@.tiles.len() == before.tiles.len(),
                    forall|idx: int|
                        0 <= idx < before.tiles.len() ==> #[trigger] self@.tiles[idx] == (if idx
                            < row * before.width + col {
                            before.tiles[idx].shown()
                        } else {
                            before.tiles[idx]
                        }),
            {
                proof {
                    before.lemma_index(row as int, col as int);
                }
                match self.get_mut_tile(row, col) {
                    Some(tile) => tile.visible = true,
                    None => (),
                }
            }
            proof {
                assert(row * before.width + before.width == (row + 1) * before.width)
                    by (nonlinear_arith);
            }
        }
        proof {
            assert(self@.tiles =~= before.reveal_all().tiles);
            before.law_reveal_all_keeps();
        }
    }

    /// Whether the game is won: every mine is flagged and hidden, and every
    /// other tile is revealed and unflagged.
    pub fn check_victory(&self) -> (won: bool)
        requires
            self@.wf(),
        ensures
            won == self@.won(),
    {
        let ghost grid = self@;
        proof {
            assert(0 * grid.width == 0 && grid.height * grid.width == grid.area())
                by (nonlinear_arith);
        }
        for row in 0..self.height
            invariant
                grid == self@,
                grid.shaped(),
                grid.height * grid.width == grid.area(),
                forall|idx: int| 0 <= idx < row * grid.width ==> (#[trigger] grid.tiles[idx]).settled(),
        {
            for col in 0..self.width
                invariant
                    grid == self@,
                    grid.shaped(),
                    row < self.height,
                    forall|idx: int|
                        0 <= idx < row * grid.width + col ==> (#[trigger] grid.tiles[idx]).settled(),
            {
                proof {
                    grid.lemma_index(row as int, col as int);
                }
                let tile = self.get_tile(row, col).unwrap();
                if !tile.visible && !tile.bomb || tile.flagged && !tile.bomb || tile.visible
                    && tile.bomb || !tile.flagged && tile.bomb {
                    return false;
                }
            }
            proof {
                assert(row * grid.width + grid.width == (row + 1) * grid.width)
                    by (nonlinear_arith);
            }
        }
        true
    }

    /// The tile at `(row, col)` for writing, or nothing if that is no
    /// position of the board. What is written to the tile is what the board
    /// then holds there; the rest of the board stays as it is.
    fn get_mut_tile(&mut self, row: u32, col: u32) -> (found: Option<&mut Tile>)
        requires
            old(self)@.shaped(),
        ensures
            old(self)@.in_bounds(row as int, col as int) ==> found is Some
                && *found->Some_0 == old(self)@.tiles[old(self)@.index(row as int, col as int)]
                && final(self)@ == old(self)@.put(
                old(self)@.index(row as int, col as int),
                *final(found->Some_0),
            ),
            !old(self)@.in_bounds(row as int, col as int) ==> found is None && *final(self) == *old(
                self,
            ),
    {
        if row >= self.height || col >= self.width {
            None
        } else {
            match self.get_index(row, col) {
                Ok(idx) => Some(&mut self.tiles[idx]),
                Err(_) => None,
            }
        }
    }

    /// The tile at `(row, col)`, or nothing if that is no position of the
    /// board.
    pub fn get_tile(&self, row: u32, col: u32) -> (found: Option<&Tile>)
        requires
            self@.shaped(),
        ensures
            self@.in_bounds(row as int, col as int) ==> found == Some(
                &self@.tiles[self@.index(row as int, col as int)],
            ),
            !self@.in_bounds(row as int, col as int) ==> found is None,
    {
        if row >= self.height || col >= self.width {
            None
        } else {
            match self.get_index(row, col) {
                Ok(idx) => Some(&self.tiles[idx]),
                Err(_) => None,
            }
        }
    }

    /// The index of the tile at `(row, col)`, or the error if that is no
    /// position of the board.
    pub fn get_index(&self, row: u32, col: u32) -> (found: Result<usize, MapError>)
        requires
            self@.shaped(),
        ensures
            self@.in_bounds(row as int, col as int) ==> found == Ok::<usize, MapError>(
                self@.index(row as int, col as int) as usize,
            ) && self@.index(row as int, col as int) < self@.tiles.len(),
            self@.in_bounds(row as int, col as int) ==> self@.row_of(
                self@.index(row as int, col as int),
            ) == row && self@.col_of(self@.index(row as int, col as int)) == col,
            !self@.in_bounds(row as int, col as int) ==> found == Err::<usize, MapError>(
                MapError::OutOfBounds,
            ),
    {
        if row < self.height && col < self.width {
            proof {
                self@.lemma_index(row as int, col as int);
            }
            Ok((row * self.width + col) as usize)
        } else {
            Err(MapError::OutOfBounds)
        }
    }

    /// The row and the column of the tile at index `idx`.
    pub fn get_coordinates(&self, idx: usize) -> (position: (u32, u32))
        requires
            self@.shaped(),
            idx < self@.tiles.len(),
        ensures
            position.0 == self@.row_of(idx as int),
            position.1 == self@.col_of(idx as int),
            self@.in_bounds(position.0 as int, position.1 as int),
            self@.index(position.0 as int, position.1 as int) == idx,
    {
        proof {
            self@.lemma_coordinates(idx as int);
        }
        ((idx as u32 / self.width), idx as u32 % self.width)
    }

    /// The indices of the tiles on the up to eight positions around
    /// `(row, col)`; positions outside the board are left out. The result is
    /// never `None`.
    pub fn get_neighbors_idxs(&self, row: u32, col: u32) -> (found: Option<Vec<usize>>)
        requires
            self@.shaped(),
        ensures
            found is Some,
            found->Some_0@ == self@.neighbors(row as int, col as int),
    {
        let mut neighbors_idxs: Vec<usize> = Vec::new();
        let row: i64 = row as i64;
        let col: i64 = col as i64;
        self.push_slot(row - 1, col - 1, &mut neighbors_idxs);
        self.push_slot(row - 1, col, &mut neighbors_idxs);
        self.push_slot(row - 1, col + 1, &mut neighbors_idxs);
        self.push_slot(row, col - 1, &mut neighbors_idxs);
        self.push_slot(row, col + 1, &mut neighbors_idxs);
        self.push_slot(row + 1, col - 1, &mut neighbors_idxs);
        self.push_slot(row + 1, col, &mut neighbors_idxs);
        self.push_slot(row + 1, col + 1, &mut neighbors_idxs);
        Some(neighbors_idxs)
    }

    /// Appends the index of `(row, col)` to `found` if that is a position of
    /// the board.
    fn push_slot(&self, row: i64, col: i64, found: &mut Vec<usize>)
        requires
            self@.shaped(),
        ensures
            final(found)@ == old(found)@ + self@.slot(row as int, col as int),
    {
        if row >= 0 && row < self.height as i64 && col >= 0 && col < self.width as i64 {
            match self.get_index(row as u32, col as u32) {
                Ok(idx) => found.push(idx),
                Err(_) => (),
            }
        }
    }

    /// Sets the label of every tile: the mark of a mine on a tile that holds
    /// one, the number of mines around it on any other.
    fn set_bombs_numbers(&mut self)
        requires
            old(self)@.shaped(),
        ensures
            final(self)@ == old(self)@.relabelled(),
    {
        let ghost before = self@;
        let height = self.height;
        let width = self.width;
        proof {
            assert(0 * before.width == 0 && before.height * before.width == before.area())
                by (nonlinear_arith);
        }
        for row in 0..height
            invariant
                height == before.height,
                width == before.width,
                before.height * before.width == before.area(),
                self@.shaped(),
                self@.same_mines(before),
                forall|idx: int|
                    0 <= idx < before.tiles.len() ==> #[trigger] self@.tiles[idx] == (if idx
                        < row * before.width {
                        before.tiles[idx].labelled(before.label(idx) as i32)
                    } else {
                        before.tiles[idx]
                    }),
        {
            for col in 0..width
                invariant
                    row < height == before.height,
                    width == before.width,
                    self@.shaped(),
                    self@.same_mines(before),
                    forall|idx: int|
                        0 <= idx < before.tiles.len() ==> #[trigger] self@.tiles[idx] == (if idx
                            < row * before.width + col {
                            before.tiles[idx].labelled(before.label(idx) as i32)
                        } else {
                            before.tiles[idx]
                        }),
            {
                proof {
                    before.lemma_index(row as int, col as int);
                    self@.lemma_same_mines_around(before, row as int, col as int);
                    self@.lemma_bombs_among_neighbors(row as int, col as int);
                    self@.lemma_neighbors(row as int, col as int);
                }
                let label: i32 = if !self.get_tile(row, col).unwrap().bomb {
                    let neighbors_idxs = self.get_neighbors_idxs(row, col).unwrap();
                    let mut count: i32 = 0;
                    for k in 0..neighbors_idxs.len()
                        invariant
                            self@.shaped(),
                            neighbors_idxs@ == self@.neighbors(row as int, col as int),
                            neighbors_idxs@.len() <= 8,
                            forall|k: int|
                                0 <= k < neighbors_idxs@.len() ==> self@.touches(
                                    row as int,
                                    col as int,
                                    #[trigger] neighbors_idxs@[k] as int,
                                ),
                            0 <= count <= k,
                            count == self@.bombs_among(neighbors_idxs@.take(k as int)),
                    {
                        let idx = neighbors_idxs[k];
                        proof {
                            assert(neighbors_idxs@.take(k + 1).drop_last() =~= neighbors_idxs@.take(
                                k as int,
                            ));
                        }
                        if self.tiles[idx].bomb {
                            count += 1;
                        }
                    }
                    proof {
                        assert(neighbors_idxs@.take(neighbors_idxs@.len() as int)
                            =~= neighbors_idxs@);
                    }
                    count
                } else {
                    BOMB_LABEL
                };
                match self.get_mut_tile(row, col) {
                    Some(tile) => tile.num_bombs = label,
                    None => (),
                }
            }
            proof {
                assert(row * before.width + before.width == (row + 1) * before.width)
                    by (nonlinear_arith);
            }
        }
        proof {
            assert(self@.tiles =~= before.relabelled().tiles);
        }
    }

    /// Spreads a reveal from the tile at index `start`. A tile with label 0
    /// is revealed and passes the reveal on to the tiles around it; a tile
    /// with another label is revealed unless it is flagged, and passes
    /// nothing on. Each tile is handled once.
    fn cascade_reveal(&mut self, start: usize)
        requires
            old(self)@.shaped(),
            start < old(self)@.tiles.len(),
        ensures
            final(self)@ == old(self)@.cascade(start as int),
    {
        broadcast use vstd::std_specs::hash::group_hash_axioms;

        let ghost before = self@;
        let mut processed: HashSet<usize> = HashSet::new();
        let mut pending: Vec<usize> = Vec::new();
        pending.push(start);
        proof {
            before.lemma_cascading_begin(start as int);
        }
        while pending.len() > 0
            invariant
                before.cascading(start as int, processed@, pending@, self@),
            decreases unhandled(processed@, before.tiles.len()), pending@.len(),
        {
            let ghost waiting = pending@;
            let ghost done = processed@;
            let ghost now = self@;
            let idx = pending.pop().unwrap();
            proof {
                lemma_replaces_last(waiting, Seq::empty());
            }
            if !processed.contains(&idx) {
                proof {
                    lemma_unhandled_insert(done, idx, before.tiles.len());
                }
                if self.tiles[idx].num_bombs == 0 {
                    let (row, col) = self.get_coordinates(idx);
                    let mut idxs = self.get_neighbors_idxs(row, col).unwrap();
                    self.tiles[idx].set_visible();
                    processed.insert(idx);
                    pending.append(&mut idxs);
                    proof {
                        let around = before.neighbors(
                            before.row_of(idx as int),
                            before.col_of(idx as int),
                        );
                        lemma_replaces_last(waiting, around);
                        before.lemma_cascading_spread(start as int, done, waiting, now, idx, pending@);
                    }
                } else if self.tiles[idx].flagged {
                    processed.insert(idx);
                    proof {
                        before.lemma_cascading_stop(start as int, done, waiting, now, idx, pending@);
                    }
                } else {
                    self.tiles[idx].set_visible();
                    processed.insert(idx);
                    proof {
                        before.lemma_cascading_stop(start as int, done, waiting, now, idx, pending@);
                    }
                }
            } else {
                proof {
                    before.lemma_cascading_skip(start as int, done, waiting, now, idx, pending@);
                }
            }
        }
        proof {
            before.lemma_cascading_end(start as int, processed@, self@);
        }
    }
}

} // verus!

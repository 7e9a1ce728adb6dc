//! The mathematical model of a board.
//!
//! A [`Grid`] is a board as a value of mathematics: two dimensions and a
//! sequence of tiles. Everything the operations of a board promise is stated
//! here, as a function from grids to grids or to truth values.

use vstd::prelude::*;
use crate::tile::{Tile, BOMB_LABEL};

verus! {

/// A board as a mathematical value: its dimensions and its tiles, row by row.
/// The tile in row `row` and column `col` stands at index
/// `row * width + col`.
pub struct Grid {
    /// The number of columns.
    pub width: nat,
    /// The number of rows.
    pub height: nat,
    /// The tiles, row by row.
    pub tiles: Seq<Tile>,
}

/// One operation of the game on a board.
pub enum Step {
    /// The tile at `(row, col)` is revealed.
    SetVisible { row: int, col: int },
    /// The flag of the tile at `(row, col)` is flipped.
    ToggleFlag { row: int, col: int },
    /// Every tile is revealed.
    RevealAll,
}

/// Whether `idx` occurs in the list `idxs` of indices.
pub open spec fn lists(idxs: Seq<usize>, idx: int) -> bool {
    exists|k: int| 0 <= k < idxs.len() && #[trigger] idxs[k] == idx
}

// Positions and indices.
impl Grid {
    /// The number of positions of the grid.
    pub open spec fn area(self) -> nat {
        self.width * self.height
    }

    /// The grid holds one tile for each position, and the number of positions
    /// fits the 32-bit coordinates.
    pub open spec fn shaped(self) -> bool {
        self.tiles.len() == self.area() && self.area() <= u32::MAX
    }

    /// Whether `(row, col)` is a position of the grid.
    pub open spec fn in_bounds(self, row: int, col: int) -> bool {
        0 <= row < self.height && 0 <= col < self.width
    }

    /// The index of position `(row, col)`.
    pub open spec fn index(self, row: int, col: int) -> int {
        row * self.width + col
    }

    /// The row of the tile at index `idx`.
    pub open spec fn row_of(self, idx: int) -> int {
        idx / (self.width as int)
    }

    /// The column of the tile at index `idx`.
    pub open spec fn col_of(self, idx: int) -> int {
        idx % (self.width as int)
    }

    /// Whether the tile at index `j` lies on one of the up to eight positions
    /// around `(row, col)`. The position `(row, col)` itself need not lie on
    /// the grid.
    pub open spec fn touches(self, row: int, col: int, j: int) -> bool {
        &&& 0 <= j < self.tiles.len()
        &&& row - 1 <= self.row_of(j) <= row + 1
        &&& col - 1 <= self.col_of(j) <= col + 1
        &&& !(self.row_of(j) == row && self.col_of(j) == col)
    }

    /// Whether the tiles at indices `i` and `j` are neighbours.
    pub open spec fn adjacent(self, i: int, j: int) -> bool {
        self.touches(self.row_of(i), self.col_of(i), j)
    }

    /// The index of `(row, col)` as a sequence of one element, or the empty
    /// sequence if `(row, col)` is no position of the grid.
    pub open spec fn slot(self, row: int, col: int) -> Seq<usize> {
        if self.in_bounds(row, col) {
            seq![self.index(row, col) as usize]
        } else {
            Seq::empty()
        }
    }

    /// The indices of the positions around `(row, col)` that lie on the grid:
    /// the row above from left to right, then the left and the right
    /// neighbour, then the row below.
    pub open spec fn neighbors(self, row: int, col: int) -> Seq<usize> {
        self.slot(row - 1, col - 1) + self.slot(row - 1, col) + self.slot(row - 1, col + 1)
            + self.slot(row, col - 1) + self.slot(row, col + 1)
            + self.slot(row + 1, col - 1) + self.slot(row + 1, col) + self.slot(row + 1, col + 1)
    }
}

// Mines and labels.
impl Grid {
    /// 1 if `(row, col)` is a position of the grid that holds a mine, else 0.
    pub open spec fn mine_at(self, row: int, col: int) -> int {
        if self.in_bounds(row, col) && self.tiles[self.index(row, col)].bomb {
            1
        } else {
            0
        }
    }

    /// The number of mines on the up to eight positions around `(row, col)`.
    pub open spec fn mines_around(self, row: int, col: int) -> int {
        self.mine_at(row - 1, col - 1) + self.mine_at(row - 1, col) + self.mine_at(row - 1, col + 1)
            + self.mine_at(row, col - 1) + self.mine_at(row, col + 1)
            + self.mine_at(row + 1, col - 1) + self.mine_at(row + 1, col)
            + self.mine_at(row + 1, col + 1)
    }

    /// The indices of the tiles around `(row, col)` that hold a mine.
    pub open spec fn mines_touching(self, row: int, col: int) -> Set<int> {
        Set::new(|j: int| self.touches(row, col, j) && self.tiles[j].bomb)
    }

    /// The label that the tile at index `idx` must carry: the mark of a mine,
    /// or the number of mines around it.
    pub open spec fn label(self, idx: int) -> int {
        if self.tiles[idx].bomb {
            BOMB_LABEL as int
        } else {
            self.mines_around(self.row_of(idx), self.col_of(idx))
        }
    }

    /// Whether every tile carries the label it must carry.
    pub open spec fn labelled(self) -> bool {
        forall|idx: int|
            0 <= idx < self.tiles.len() ==> (#[trigger] self.tiles[idx]).num_bombs
                == self.label(idx)
    }

    /// The invariant of a board: it has its shape and every label is right.
    pub open spec fn wf(self) -> bool {
        self.shaped() && self.labelled()
    }

    /// The indices of the tiles that hold a mine.
    pub open spec fn mines(self) -> Set<int> {
        Set::new(|idx: int| 0 <= idx < self.tiles.len() && self.tiles[idx].bomb)
    }

    /// The number of tiles that hold a mine.
    pub open spec fn mine_count(self) -> nat {
        self.mines().len()
    }

    /// Whether this grid and `other` have the same dimensions and the same
    /// mines.
    pub open spec fn same_mines(self, other: Grid) -> bool {
        &&& self.width == other.width
        &&& self.height == other.height
        &&& self.tiles.len() == other.tiles.len()
        &&& forall|idx: int|
            0 <= idx < self.tiles.len() ==> (#[trigger] self.tiles[idx]).bomb
                == other.tiles[idx].bomb
    }

    /// Whether this grid and `other` have the same dimensions, the same mines
    /// and the same labels: they differ at most in what is revealed and what
    /// is flagged.
    pub open spec fn same_ground(self, other: Grid) -> bool {
        &&& self.width == other.width
        &&& self.height == other.height
        &&& self.tiles.len() == other.tiles.len()
        &&& forall|idx: int|
            0 <= idx < self.tiles.len() ==> (#[trigger] self.tiles[idx]).same_ground(
                other.tiles[idx],
            )
    }

    /// Whether every tile revealed in this grid is revealed in `later`.
    pub open spec fn revealed_stays(self, later: Grid) -> bool {
        &&& self.tiles.len() == later.tiles.len()
        &&& forall|idx: int|
            0 <= idx < self.tiles.len() && self.tiles[idx].visible ==> (
            #[trigger] later.tiles[idx]).visible
    }
}

// Building a board.
impl Grid {
    /// The grid of the given dimensions without mines, nothing revealed and
    /// nothing flagged, every label 0.
    pub open spec fn blank(width: nat, height: nat) -> Grid {
        Grid { width, height, tiles: Seq::new(width * height, |idx: int| Tile::blank()) }
    }

    /// The grid with a mine on each tile whose index occurs in `bombs`, and
    /// the labels left as they are.
    pub open spec fn mined(self, bombs: Seq<usize>) -> Grid {
        Grid {
            tiles: Seq::new(
                self.tiles.len(),
                |idx: int|
                    if lists(bombs, idx) {
                        self.tiles[idx].mined()
                    } else {
                        self.tiles[idx]
                    },
            ),
            ..self
        }
    }

    /// The grid with every label set to what it must be.
    pub open spec fn relabelled(self) -> Grid {
        Grid {
            tiles: Seq::new(
                self.tiles.len(),
                |idx: int| self.tiles[idx].labelled(self.label(idx) as i32),
            ),
            ..self
        }
    }

    /// The freshly built grid of the given dimensions with its mines on the
    /// indices in `bombs`.
    pub open spec fn fresh(width: nat, height: nat, bombs: Seq<usize>) -> Grid {
        Grid::blank(width, height).mined(bombs).relabelled()
    }
}

// The cascade.
impl Grid {
    /// Whether the tile at index `idx` has label 0: it holds no mine and
    /// no mine lies around it.
    pub open spec fn empty_at(self, idx: int) -> bool {
        0 <= idx < self.tiles.len() && self.tiles[idx].num_bombs == 0
    }

    /// Whether `path` is a walk over tiles with label 0, each step leading to
    /// a neighbour.
    pub open spec fn empty_walk(self, path: Seq<int>) -> bool {
        &&& path.len() > 0
        &&& forall|k: int| 0 <= k < path.len() ==> self.empty_at(#[trigger] path[k])
        &&& forall|k: int| 0 < k < path.len() ==> self.adjacent(path[k - 1], #[trigger] path[k])
    }

    /// Whether a walk over tiles with label 0 leads from `from` to `to`.
    pub open spec fn empty_linked(self, from: int, to: int) -> bool {
        exists|path: Seq<int>|
            #![auto]
            self.empty_walk(path) && path[0] == from && path.last() == to
    }

    /// Whether a cascade that starts at index `start` handles the tile at
    /// index `idx`: it is the start itself, or a neighbour of a tile with
    /// label 0 to which a walk over such tiles leads from the start.
    pub open spec fn cascade_reaches(self, start: int, idx: int) -> bool {
        &&& 0 <= idx < self.tiles.len()
        &&& (idx == start || exists|via: int|
            #![auto]
            self.empty_linked(start, via) && self.adjacent(via, idx))
    }

    /// Whether a cascade reveals the tile at index `idx` when it handles it:
    /// the tile has label 0 or is not flagged. A flagged tile with another
    /// label is handled and stays as it is.
    pub open spec fn cascade_opens(self, idx: int) -> bool {
        self.tiles[idx].num_bombs == 0 || !self.tiles[idx].flagged
    }

    /// Whether a cascade that starts at index `start` reveals the tile at
    /// index `idx`.
    pub open spec fn cascade_shows(self, start: int, idx: int) -> bool {
        self.cascade_reaches(start, idx) && self.cascade_opens(idx)
    }

    /// The grid after a cascade that starts at index `start`.
    pub open spec fn cascade(self, start: int) -> Grid {
        Grid {
            tiles: Seq::new(
                self.tiles.len(),
                |idx: int|
                    if self.cascade_shows(start, idx) {
                        self.tiles[idx].shown()
                    } else {
                        self.tiles[idx]
                    },
            ),
            ..self
        }
    }
}

// The operations of the game.
impl Grid {
    /// The grid with the tile at index `idx` replaced.
    pub open spec fn put(self, idx: int, tile: Tile) -> Grid {
        Grid { tiles: self.tiles.update(idx, tile), ..self }
    }

    /// The grid after the reveal of `(row, col)`: unchanged if that is no
    /// position of the grid; else that tile is revealed, and if its label is
    /// 0, a cascade starts from it.
    pub open spec fn set_visible(self, row: int, col: int) -> Grid {
        if !self.in_bounds(row, col) {
            self
        } else {
            let start = self.index(row, col);
            let opened = self.put(start, self.tiles[start].shown());
            if self.tiles[start].num_bombs == 0 {
                opened.cascade(start)
            } else {
                opened
            }
        }
    }

    /// The grid after the flag of `(row, col)` is flipped: unchanged if that
    /// is no position of the grid.
    pub open spec fn toggle_flag(self, row: int, col: int) -> Grid {
        if !self.in_bounds(row, col) {
            self
        } else {
            let at = self.index(row, col);
            self.put(at, self.tiles[at].toggled())
        }
    }

    /// The grid with every tile revealed.
    pub open spec fn reveal_all(self) -> Grid {
        Grid { tiles: Seq::new(self.tiles.len(), |idx: int| self.tiles[idx].shown()), ..self }
    }

    /// The grid after one operation.
    pub open spec fn step(self, step: Step) -> Grid {
        match step {
            Step::SetVisible { row, col } => self.set_visible(row, col),
            Step::ToggleFlag { row, col } => self.toggle_flag(row, col),
            Step::RevealAll => self.reveal_all(),
        }
    }

    /// The grid after the operations in `steps`, one after the other.
    pub open spec fn run(self, steps: Seq<Step>) -> Grid
        decreases steps.len(),
    {
        if steps.len() == 0 {
            self
        } else {
            self.run(steps.drop_last()).step(steps.last())
        }
    }

    /// Whether the game is won: every mine is flagged and hidden, every other
    /// tile is revealed and unflagged.
    pub open spec fn won(self) -> bool {
        forall|idx: int| 0 <= idx < self.tiles.len() ==> (#[trigger] self.tiles[idx]).settled()
    }
}

} // verus!

//! Facts about the row-by-row layout: how positions and indices correspond.

use vstd::prelude::*;
use vstd::arithmetic::div_mod::{lemma_fundamental_div_mod, lemma_fundamental_div_mod_converse};
use crate::grid::Grid;

verus! {

impl Grid {
    /// The index of a position of the grid lies below the area, and its row
    /// and column are those of the position.
    pub proof fn lemma_index(self, row: int, col: int)
        requires
            self.in_bounds(row, col),
        ensures
            0 <= self.index(row, col) < self.area(),
            self.row_of(self.index(row, col)) == row,
            self.col_of(self.index(row, col)) == col,
    {
        let w = self.width as int;
        let h = self.height as int;
        assert(0 <= row * w && row * w + w <= w * h) by (nonlinear_arith)
            requires
                0 <= row < h,
                0 < w,
        ;
        lemma_fundamental_div_mod_converse(row * w + col, w, row, col);
    }

    /// The row and the column of an index below the area form a position of
    /// the grid, and that position has this index.
    pub proof fn lemma_coordinates(self, idx: int)
        requires
            0 <= idx < self.area(),
        ensures
            self.in_bounds(self.row_of(idx), self.col_of(idx)),
            self.index(self.row_of(idx), self.col_of(idx)) == idx,
    {
        let w = self.width as int;
        let h = self.height as int;
        assert(w > 0) by (nonlinear_arith)
            requires
                0 <= idx < w * h,
                w >= 0,
        ;
        lemma_fundamental_div_mod(idx, w);
        let q = idx / w;
        let r = idx % w;
        assert(0 <= q < h) by (nonlinear_arith)
            requires
                0 <= idx < w * h,
                idx == q * w + r,
                0 <= r < w,
        ;
    }

    /// What the sequence of one position holds: nothing, or the index of that
    /// position, which then lies on the grid.
    pub proof fn lemma_slot(self, row: int, col: int)
        requires
            self.shaped(),
        ensures
            self.slot(row, col).len() == (if self.in_bounds(row, col) {
                1nat
            } else {
                0nat
            }),
            self.in_bounds(row, col) ==> {
                &&& self.slot(row, col)[0] == self.index(row, col)
                &&& 0 <= self.index(row, col) < self.tiles.len()
                &&& self.row_of(self.index(row, col)) == row
                &&& self.col_of(self.index(row, col)) == col
            },
    {
        if self.in_bounds(row, col) {
            self.lemma_index(row, col);
        }
    }

    /// The neighbours of a position are the tiles that touch it: each listed
    /// index touches the position, and each index that touches it is listed.
    pub proof fn lemma_neighbors(self, row: int, col: int)
        requires
            self.shaped(),
        ensures
            forall|k: int|
                0 <= k < self.neighbors(row, col).len() ==> self.touches(
                    row,
                    col,
                    #[trigger] self.neighbors(row, col)[k] as int,
                ),
            forall|j: int|
                self.touches(row, col, j) ==> #[trigger] self.neighbors(row, col).contains(
                    j as usize,
                ),
    {
        self.lemma_slot(row - 1, col - 1);
        self.lemma_slot(row - 1, col);
        self.lemma_slot(row - 1, col + 1);
        self.lemma_slot(row, col - 1);
        self.lemma_slot(row, col + 1);
        self.lemma_slot(row + 1, col - 1);
        self.lemma_slot(row + 1, col);
        self.lemma_slot(row + 1, col + 1);
        let all = self.neighbors(row, col);
        assert forall|j: int| self.touches(row, col, j) implies #[trigger] all.contains(
            j as usize,
        ) by {
            self.lemma_coordinates(j);
            let r = self.row_of(j);
            let c = self.col_of(j);
            let before = if r == row - 1 {
                if c == col - 1 {
                    Seq::<usize>::empty()
                } else if c == col {
                    self.slot(row - 1, col - 1)
                } else {
                    self.slot(row - 1, col - 1) + self.slot(row - 1, col)
                }
            } else if r == row {
                let above = self.slot(row - 1, col - 1) + self.slot(row - 1, col) + self.slot(
                    row - 1,
                    col + 1,
                );
                if c == col - 1 {
                    above
                } else {
                    above + self.slot(row, col - 1)
                }
            } else {
                let upper = self.slot(row - 1, col - 1) + self.slot(row - 1, col) + self.slot(
                    row - 1,
                    col + 1,
                ) + self.slot(row, col - 1) + self.slot(row, col + 1);
                if c == col - 1 {
                    upper
                } else if c == col {
                    upper + self.slot(row + 1, col - 1)
                } else {
                    upper + self.slot(row + 1, col - 1) + self.slot(row + 1, col)
                }
            };
            assert(all[before.len() as int] == j as usize);
        }
    }
}

} // verus!

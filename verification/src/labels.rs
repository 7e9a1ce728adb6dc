//! Facts about mines and labels.

use vstd::prelude::*;
use vstd::set_lib::{lemma_int_range, lemma_len_subset, lemma_subset_equality, set_int_range};
use crate::grid::{lists, Grid};

verus! {

impl Grid {
    /// Two grids with the same dimensions and the same mines have the same
    /// number of mines around every position.
    pub proof fn lemma_same_mines_around(self, other: Grid, row: int, col: int)
        requires
            self.shaped(),
            self.same_mines(other),
        ensures
            self.mines_around(row, col) == other.mines_around(row, col),
    {
        assert forall|r: int, c: int| self.mine_at(r, c) == other.mine_at(r, c) by {
            if self.in_bounds(r, c) {
                self.lemma_index(r, c);
            }
        }
    }

    /// Revealing and flagging keep a board well formed: a grid with the
    /// dimensions, mines and labels of a well-formed grid is well formed.
    pub proof fn lemma_same_ground_wf(self, other: Grid)
        requires
            self.wf(),
            self.same_ground(other),
        ensures
            other.wf(),
    {
        assert forall|idx: int| 0 <= idx < self.tiles.len() implies (
        #[trigger] self.tiles[idx]).bomb == other.tiles[idx].bomb by {
            assert(self.tiles[idx].same_ground(other.tiles[idx]));
        }
        assert forall|idx: int| 0 <= idx < other.tiles.len() implies (
        #[trigger] other.tiles[idx]).num_bombs == other.label(idx) by {
            assert(self.tiles[idx].same_ground(other.tiles[idx]));
            self.lemma_same_mines_around(other, self.row_of(idx), self.col_of(idx));
        }
    }

    /// The number of mines around a position lies between 0 and 8.
    pub proof fn lemma_mines_around_range(self, row: int, col: int)
        ensures
            0 <= self.mines_around(row, col) <= 8,
    {
    }

    /// The number of mines on the tiles whose indices `idxs` lists, an index
    /// counted as often as it is listed.
    pub open spec fn bombs_among(self, idxs: Seq<usize>) -> int
        decreases idxs.len(),
    {
        if idxs.len() == 0 {
            0
        } else {
            self.bombs_among(idxs.drop_last()) + (if self.tiles[idxs.last() as int].bomb {
                1int
            } else {
                0int
            })
        }
    }

    /// Counting mines over two lists of indices, one after the other, adds
    /// up.
    pub proof fn lemma_bombs_among_concat(self, first: Seq<usize>, second: Seq<usize>)
        ensures
            self.bombs_among(first + second) == self.bombs_among(first) + self.bombs_among(second),
        decreases second.len(),
    {
        if second.len() == 0 {
            assert(first + second =~= first);
        } else {
            assert((first + second).drop_last() =~= first + second.drop_last());
            self.lemma_bombs_among_concat(first, second.drop_last());
        }
    }

    /// Counting mines over the sequence of one position tells whether that
    /// position holds a mine.
    pub proof fn lemma_bombs_among_slot(self, row: int, col: int)
        requires
            self.shaped(),
        ensures
            self.bombs_among(self.slot(row, col)) == self.mine_at(row, col),
    {
        self.lemma_slot(row, col);
        let one = self.slot(row, col);
        if self.in_bounds(row, col) {
            assert(self.bombs_among(one.drop_last()) == 0);
        }
    }

    /// Counting mines over the neighbours of a position gives the number of
    /// mines around it.
    pub proof fn lemma_bombs_among_neighbors(self, row: int, col: int)
        requires
            self.shaped(),
        ensures
            self.bombs_among(self.neighbors(row, col)) == self.mines_around(row, col),
            self.neighbors(row, col).len() <= 8,
    {
        let s1 = self.slot(row - 1, col - 1);
        let s2 = self.slot(row - 1, col);
        let s3 = self.slot(row - 1, col + 1);
        let s4 = self.slot(row, col - 1);
        let s5 = self.slot(row, col + 1);
        let s6 = self.slot(row + 1, col - 1);
        let s7 = self.slot(row + 1, col);
        let s8 = self.slot(row + 1, col + 1);
        self.lemma_bombs_among_slot(row - 1, col - 1);
        self.lemma_bombs_among_slot(row - 1, col);
        self.lemma_bombs_among_slot(row - 1, col + 1);
        self.lemma_bombs_among_slot(row, col - 1);
        self.lemma_bombs_among_slot(row, col + 1);
        self.lemma_bombs_among_slot(row + 1, col - 1);
        self.lemma_bombs_among_slot(row + 1, col);
        self.lemma_bombs_among_slot(row + 1, col + 1);
        self.lemma_bombs_among_concat(s1, s2);
        self.lemma_bombs_among_concat(s1 + s2, s3);
        self.lemma_bombs_among_concat(s1 + s2 + s3, s4);
        self.lemma_bombs_among_concat(s1 + s2 + s3 + s4, s5);
        self.lemma_bombs_among_concat(s1 + s2 + s3 + s4 + s5, s6);
        self.lemma_bombs_among_concat(s1 + s2 + s3 + s4 + s5 + s6, s7);
        self.lemma_bombs_among_concat(s1 + s2 + s3 + s4 + s5 + s6 + s7, s8);
        self.lemma_slot(row - 1, col - 1);
        self.lemma_slot(row - 1, col);
        self.lemma_slot(row - 1, col + 1);
        self.lemma_slot(row, col - 1);
        self.lemma_slot(row, col + 1);
        self.lemma_slot(row + 1, col - 1);
        self.lemma_slot(row + 1, col);
        self.lemma_slot(row + 1, col + 1);
    }

    /// Setting every label to what it must be makes a grid well formed and
    /// changes nothing but labels.
    pub proof fn lemma_relabelled(self)
        requires
            self.shaped(),
        ensures
            self.relabelled().wf(),
            self.relabelled().same_mines(self),
    {
        let after = self.relabelled();
        assert forall|idx: int| 0 <= idx < after.tiles.len() implies (
        #[trigger] after.tiles[idx]).num_bombs == after.label(idx) by {
            self.lemma_same_mines_around(after, self.row_of(idx), self.col_of(idx));
            self.lemma_mines_around_range(self.row_of(idx), self.col_of(idx));
        }
    }

    /// One more index in the list of mines puts a mine on the tile at that
    /// index and changes no other tile.
    pub proof fn lemma_mined_push(self, bombs: Seq<usize>, idx: usize)
        requires
            idx < self.tiles.len(),
        ensures
            self.mined(bombs.push(idx)).tiles == self.mined(bombs).tiles.update(
                idx as int,
                self.mined(bombs).tiles[idx as int].mined(),
            ),
    {
        let more = bombs.push(idx);
        assert forall|i: int| lists(more, i) <==> lists(bombs, i) || i == idx by {
            if lists(bombs, i) {
                let k = choose|k: int| 0 <= k < bombs.len() && #[trigger] bombs[k] == i;
                assert(more[k] == i);
            }
            if i == idx {
                assert(more[bombs.len() as int] == idx);
            }
            if lists(more, i) {
                let k = choose|k: int| 0 <= k < more.len() && #[trigger] more[k] == i;
                if k < bombs.len() {
                    assert(bombs[k] == i);
                }
            }
        }
        assert(self.mined(more).tiles =~= self.mined(bombs).tiles.update(
            idx as int,
            self.mined(bombs).tiles[idx as int].mined(),
        ));
    }

    /// The mines of a grid are finitely many, at most one for each tile.
    pub proof fn lemma_mines_finite(self)
        ensures
            self.mines().finite(),
            self.mine_count() <= self.tiles.len(),
    {
        let all = set_int_range(0, self.tiles.len() as int);
        lemma_int_range(0, self.tiles.len() as int);
        lemma_len_subset(self.mines(), all);
    }

    /// A grid with as many mines as tiles holds a mine on every tile.
    pub proof fn lemma_all_mined(self)
        requires
            self.mine_count() == self.tiles.len(),
        ensures
            forall|idx: int| 0 <= idx < self.tiles.len() ==> (#[trigger] self.tiles[idx]).bomb,
    {
        let all = set_int_range(0, self.tiles.len() as int);
        lemma_int_range(0, self.tiles.len() as int);
        self.lemma_mines_finite();
        lemma_subset_equality(self.mines(), all);
        assert forall|idx: int| 0 <= idx < self.tiles.len() implies (
        #[trigger] self.tiles[idx]).bomb by {
            assert(self.mines().contains(idx));
        }
    }

    /// A grid whose mines lie exactly on the indices that `bombs` lists, none
    /// of them twice, has as many mines as `bombs` is long.
    pub proof fn lemma_mine_count(self, bombs: Seq<usize>)
        requires
            bombs.no_duplicates(),
            forall|k: int| 0 <= k < bombs.len() ==> #[trigger] bombs[k] < self.tiles.len(),
            forall|idx: int|
                0 <= idx < self.tiles.len() ==> ((#[trigger] self.tiles[idx]).bomb <==> lists(
                    bombs,
                    idx,
                )),
        ensures
            self.mine_count() == bombs.len(),
    {
        let places = Seq::new(bombs.len(), |k: int| bombs[k] as int);
        assert forall|idx: int| self.mines().contains(idx) implies places.to_set().contains(
            idx,
        ) by {
            let k = choose|k: int| 0 <= k < bombs.len() && #[trigger] bombs[k] == idx;
            assert(places[k] == idx);
        }
        assert forall|idx: int| places.to_set().contains(idx) implies self.mines().contains(
            idx,
        ) by {
            let k = choose|k: int| 0 <= k < places.len() && places[k] == idx;
            assert(bombs[k] == idx);
        }
        assert(places.to_set() =~= self.mines());
        places.unique_seq_to_set();
    }

    /// `found` with the index of `(row, col)` put in if that position holds
    /// a mine.
    pub open spec fn with_mine_of(self, found: Set<int>, row: int, col: int) -> Set<int> {
        if self.mine_at(row, col) == 1 {
            found.insert(self.index(row, col))
        } else {
            found
        }
    }

    /// Putting in the mine of a position that `found` does not hold yet adds
    /// to its size what that position counts.
    pub proof fn lemma_with_mine_of(self, found: Set<int>, row: int, col: int)
        requires
            found.finite(),
            !(self.in_bounds(row, col) && found.contains(self.index(row, col))),
        ensures
            self.with_mine_of(found, row, col).finite(),
            self.with_mine_of(found, row, col).len() == found.len() + self.mine_at(row, col),
    {
    }

    /// The number of mines around a position is the size of the set of
    /// tiles around it that hold a mine.
    pub proof fn lemma_mines_around_counts(self, row: int, col: int)
        requires
            self.shaped(),
        ensures
            self.mines_touching(row, col).finite(),
            self.mines_touching(row, col).len() == self.mines_around(row, col),
    {
        self.lemma_slot(row - 1, col - 1);
        self.lemma_slot(row - 1, col);
        self.lemma_slot(row - 1, col + 1);
        self.lemma_slot(row, col - 1);
        self.lemma_slot(row, col + 1);
        self.lemma_slot(row + 1, col - 1);
        self.lemma_slot(row + 1, col);
        self.lemma_slot(row + 1, col + 1);
        let s0 = Set::<int>::empty();
        let s1 = self.with_mine_of(s0, row - 1, col - 1);
        self.lemma_with_mine_of(s0, row - 1, col - 1);
        let s2 = self.with_mine_of(s1, row - 1, col);
        self.lemma_with_mine_of(s1, row - 1, col);
        let s3 = self.with_mine_of(s2, row - 1, col + 1);
        self.lemma_with_mine_of(s2, row - 1, col + 1);
        let s4 = self.with_mine_of(s3, row, col - 1);
        self.lemma_with_mine_of(s3, row, col - 1);
        let s5 = self.with_mine_of(s4, row, col + 1);
        self.lemma_with_mine_of(s4, row, col + 1);
        let s6 = self.with_mine_of(s5, row + 1, col - 1);
        self.lemma_with_mine_of(s5, row + 1, col - 1);
        let s7 = self.with_mine_of(s6, row + 1, col);
        self.lemma_with_mine_of(s6, row + 1, col);
        let s8 = self.with_mine_of(s7, row + 1, col + 1);
        self.lemma_with_mine_of(s7, row + 1, col + 1);
        assert forall|j: int| self.mines_touching(row, col).contains(j) implies s8.contains(j) by {
            self.lemma_coordinates(j);
        }
        assert(s8 =~= self.mines_touching(row, col));
    }
}

} // verus!

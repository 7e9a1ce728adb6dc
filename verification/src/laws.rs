//! What holds of every board, whatever is done with it.

use vstd::prelude::*;
use crate::cascade::has;
use crate::grid::{Grid, Step};
use crate::tile::{Tile, BOMB_LABEL};

verus! {

impl Grid {
    /// A freshly built grid holds exactly as many mines as the list it was
    /// built from is long, if the list names no tile twice; and it is well
    /// formed, nothing on it revealed or flagged.
    pub proof fn law_fresh_mine_count(width: nat, height: nat, bombs: Seq<usize>)
        requires
            width * height <= u32::MAX,
            bombs.no_duplicates(),
            forall|k: int| 0 <= k < bombs.len() ==> #[trigger] bombs[k] < width * height,
        ensures
            Grid::fresh(width, height, bombs).wf(),
            Grid::fresh(width, height, bombs).mine_count() == bombs.len(),
            Grid::fresh(width, height, bombs).mine_count() <= width * height,
            forall|idx: int|
                0 <= idx < width * height ==> !(#[trigger] Grid::fresh(
                    width,
                    height,
                    bombs,
                ).tiles[idx]).visible && !Grid::fresh(width, height, bombs).tiles[idx].flagged,
    {
        let mined = Grid::blank(width, height).mined(bombs);
        mined.lemma_relabelled();
        let fresh = Grid::fresh(width, height, bombs);
        fresh.lemma_mine_count(bombs);
        fresh.lemma_mines_finite();
    }

    /// On a well-formed grid the label of a tile without a mine is the number
    /// of mines on the positions around it, which is the size of the set of
    /// tiles around it that hold a mine, a number from 0 to 8; the label of
    /// a tile with a mine is the mark of a mine, which is no such number.
    pub proof fn law_labels_exact(self, row: int, col: int)
        requires
            self.wf(),
            self.in_bounds(row, col),
        ensures
            0 <= self.mines_around(row, col) <= 8,
            self.mines_around(row, col) == self.mines_touching(row, col).len(),
            !self.tiles[self.index(row, col)].bomb ==> self.tiles[self.index(row, col)].num_bombs
                == self.mines_around(row, col),
            self.tiles[self.index(row, col)].bomb ==> self.tiles[self.index(row, col)].num_bombs
                == BOMB_LABEL,
            self.tiles[self.index(row, col)].bomb <==> self.tiles[self.index(row, col)].num_bombs
                < 0,
    {
        self.lemma_index(row, col);
        self.lemma_mines_around_counts(row, col);
    }

    /// A reveal changes neither dimensions, mines, labels nor flags, hides
    /// nothing that was revealed, and keeps a well-formed grid well formed.
    pub proof fn law_set_visible_keeps(self, row: int, col: int)
        requires
            self.shaped(),
        ensures
            self.same_ground(self.set_visible(row, col)),
            self.revealed_stays(self.set_visible(row, col)),
            forall|idx: int|
                0 <= idx < self.tiles.len() ==> (#[trigger] self.set_visible(
                    row,
                    col,
                ).tiles[idx]).flagged == self.tiles[idx].flagged,
            self.wf() ==> self.set_visible(row, col).wf(),
    {
        if self.in_bounds(row, col) {
            self.lemma_index(row, col);
        }
        let after = self.set_visible(row, col);
        assert forall|idx: int| 0 <= idx < self.tiles.len() implies (
        #[trigger] self.tiles[idx]).same_ground(after.tiles[idx]) by {}
        if self.wf() {
            self.lemma_same_ground_wf(after);
        }
    }

    /// Flipping a flag changes nothing but that flag, and keeps a well-formed
    /// grid well formed.
    pub proof fn law_toggle_flag_keeps(self, row: int, col: int)
        requires
            self.shaped(),
        ensures
            self.same_ground(self.toggle_flag(row, col)),
            self.revealed_stays(self.toggle_flag(row, col)),
            forall|idx: int|
                0 <= idx < self.tiles.len() && !(self.in_bounds(row, col) && idx == self.index(
                    row,
                    col,
                )) ==> #[trigger] self.toggle_flag(row, col).tiles[idx] == self.tiles[idx],
            self.wf() ==> self.toggle_flag(row, col).wf(),
    {
        if self.in_bounds(row, col) {
            self.lemma_index(row, col);
        }
        let after = self.toggle_flag(row, col);
        assert forall|idx: int| 0 <= idx < self.tiles.len() implies (
        #[trigger] self.tiles[idx]).same_ground(after.tiles[idx]) by {}
        if self.wf() {
            self.lemma_same_ground_wf(after);
        }
    }

    /// Revealing everything changes neither dimensions, mines, labels nor
    /// flags, and keeps a well-formed grid well formed.
    pub proof fn law_reveal_all_keeps(self)
        requires
            self.shaped(),
        ensures
            self.same_ground(self.reveal_all()),
            self.revealed_stays(self.reveal_all()),
            self.wf() ==> self.reveal_all().wf(),
    {
        let after = self.reveal_all();
        assert forall|idx: int| 0 <= idx < self.tiles.len() implies (
        #[trigger] self.tiles[idx]).same_ground(after.tiles[idx]) by {}
        if self.wf() {
            self.lemma_same_ground_wf(after);
        }
    }

    /// Whatever operations follow one another, in whatever number: a tile
    /// that is revealed stays revealed, no mine and no label changes, and a
    /// well-formed grid stays well formed.
    pub proof fn law_revealed_stays_revealed(self, steps: Seq<Step>)
        requires
            self.wf(),
        ensures
            self.run(steps).wf(),
            self.same_ground(self.run(steps)),
            self.revealed_stays(self.run(steps)),
        decreases steps.len(),
    {
        if steps.len() > 0 {
            let earlier = self.run(steps.drop_last());
            self.law_revealed_stays_revealed(steps.drop_last());
            match steps.last() {
                Step::SetVisible { row, col } => earlier.law_set_visible_keeps(row, col),
                Step::ToggleFlag { row, col } => earlier.law_toggle_flag_keeps(row, col),
                Step::RevealAll => earlier.law_reveal_all_keeps(),
            }
            let after = self.run(steps);
            assert forall|idx: int| 0 <= idx < self.tiles.len() implies (
            #[trigger] self.tiles[idx]).same_ground(after.tiles[idx]) by {
                assert(self.tiles[idx].same_ground(earlier.tiles[idx]));
                assert(earlier.tiles[idx].same_ground(after.tiles[idx]));
            }
            assert forall|idx: int|
                0 <= idx < self.tiles.len() && self.tiles[idx].visible implies (
            #[trigger] after.tiles[idx]).visible by {
                assert(earlier.tiles[idx].visible);
            }
        }
    }

    /// The order in which a cascade handles the waiting tiles makes no
    /// difference: two traversals from the same start over the same grid
    /// that have nothing left waiting have handled the same tiles and have
    /// left the same grid, the one that [`Grid::cascade`] describes.
    pub proof fn law_cascade_confluent(
        self,
        start: int,
        done: Set<usize>,
        now: Grid,
        done2: Set<usize>,
        now2: Grid,
    )
        requires
            self.cascading(start, done, Seq::empty(), now),
            self.cascading(start, done2, Seq::empty(), now2),
        ensures
            now == now2,
            now == self.cascade(start),
            forall|idx: int| has(done, idx) <==> has(done2, idx),
            forall|idx: int| has(done, idx) <==> self.cascade_reaches(start, idx),
    {
        self.lemma_cascading_end(start, done, now);
        self.lemma_cascading_end(start, done2, now2);
    }

    /// A flagged tile whose label is not 0 is a boundary of the cascade: a
    /// traversal that reaches it handles it and leaves it as it is, hidden
    /// if it was hidden.
    pub proof fn law_flag_boundary(self, start: int, done: Set<usize>, now: Grid, idx: int)
        requires
            self.cascading(start, done, Seq::empty(), now),
            self.cascade_reaches(start, idx),
            self.tiles[idx].flagged,
            self.tiles[idx].num_bombs != 0,
        ensures
            has(done, idx),
            now.tiles[idx] == self.tiles[idx],
            self.cascade(start).tiles[idx] == self.tiles[idx],
    {
        self.lemma_cascading_end(start, done, now);
    }

    /// A reveal leaves every flagged tile whose label is not 0 as it is,
    /// but the tile that it is asked to reveal.
    pub proof fn law_flagged_survives_reveal(self, row: int, col: int, idx: int)
        requires
            self.shaped(),
            0 <= idx < self.tiles.len(),
            self.tiles[idx].flagged,
            self.tiles[idx].num_bombs != 0,
            !(self.in_bounds(row, col) && idx == self.index(row, col)),
        ensures
            self.set_visible(row, col).tiles[idx] == self.tiles[idx],
    {
        if self.in_bounds(row, col) {
            self.lemma_index(row, col);
        }
    }

    /// A position outside the grid makes a reveal and a flip of a flag
    /// change nothing.
    pub proof fn law_out_of_bounds_noop(self, row: int, col: int)
        requires
            !self.in_bounds(row, col),
        ensures
            self.set_visible(row, col) == self,
            self.toggle_flag(row, col) == self,
    {
    }

    /// The game is won exactly if every mine is flagged and hidden and every
    /// other tile is revealed and unflagged; which is to say, if no tile
    /// stands in the way.
    pub proof fn law_victory_exact(self)
        ensures
            self.won() <==> (forall|idx: int|
                0 <= idx < self.tiles.len() ==> ((#[trigger] self.tiles[idx]).bomb
                    ==> self.tiles[idx].flagged && !self.tiles[idx].visible) && (
                !self.tiles[idx].bomb ==> self.tiles[idx].visible && !self.tiles[idx].flagged)),
            self.won() <==> !(exists|idx: int|
                0 <= idx < self.tiles.len() && (#[trigger] self.tiles[idx]).blocks_victory()),
    {
        assert forall|tile: Tile| #[trigger] tile.settled() <==> !tile.blocks_victory() by {}
        if self.won() {
            assert forall|idx: int| 0 <= idx < self.tiles.len() implies !(
            #[trigger] self.tiles[idx]).blocks_victory() by {
                assert(self.tiles[idx].settled());
            }
        }
    }

    /// One tile that is not as a won game needs it is enough to lose the
    /// win.
    pub proof fn law_one_tile_spoils_victory(self, idx: int, tile: Tile)
        requires
            0 <= idx < self.tiles.len(),
            !tile.settled(),
        ensures
            !self.put(idx, tile).won(),
    {
        assert(self.put(idx, tile).tiles[idx] == tile);
    }
}

} // verus!

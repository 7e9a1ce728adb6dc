//! A single position of the grid.

use vstd::prelude::*;

verus! {

/// The label carried by a tile that holds a mine. It differs from every
/// neighbour count, which lies between 0 and 8.
pub const BOMB_LABEL: i32 = -1;

/// One grid position: whether it holds a mine, whether the player has flagged
/// it, whether it has been revealed, and its label: the number of mines on
/// the up to eight tiles around it, or [`BOMB_LABEL`] if it holds a mine.
#[derive(Debug, Copy, Clone)]
pub struct Tile {
    /// Whether the tile holds a mine.
    pub bomb: bool,
    /// Whether the player has flagged the tile.
    pub flagged: bool,
    /// Whether the tile has been revealed.
    pub visible: bool,
    /// The label: the number of mines around the tile, or [`BOMB_LABEL`].
    pub num_bombs: i32,
}

impl Tile {
    /// The tile that a board starts from: hidden, unflagged, without a mine,
    /// with label 0.
    pub open spec fn blank() -> Tile {
        Tile { bomb: false, flagged: false, visible: false, num_bombs: 0 }
    }

    /// This tile, revealed.
    pub open spec fn shown(self) -> Tile {
        Tile { visible: true, ..self }
    }

    /// This tile with its flag flipped.
    pub open spec fn toggled(self) -> Tile {
        Tile { flagged: !self.flagged, ..self }
    }

    /// This tile carrying a mine.
    pub open spec fn mined(self) -> Tile {
        Tile { bomb: true, ..self }
    }

    /// This tile with the given label.
    pub open spec fn labelled(self, label: i32) -> Tile {
        Tile { num_bombs: label, ..self }
    }

    /// Whether the tile is as a won game needs it: a mine flagged and hidden,
    /// or a mine-free tile revealed and unflagged.
    pub open spec fn settled(self) -> bool {
        if self.bomb {
            self.flagged && !self.visible
        } else {
            self.visible && !self.flagged
        }
    }

    /// Whether the tile stands in the way of a won game: it holds no mine and
    /// is hidden or flagged, or it holds a mine and is revealed or unflagged.
    pub open spec fn blocks_victory(self) -> bool {
        !self.visible && !self.bomb || self.flagged && !self.bomb || self.visible && self.bomb
            || !self.flagged && self.bomb
    }

    /// Whether this tile and `other` differ at most in being revealed and in
    /// being flagged: the mine and the label are the same.
    pub open spec fn same_ground(self, other: Tile) -> bool {
        self.bomb == other.bomb && self.num_bombs == other.num_bombs
    }

    /// A hidden, unflagged tile without a mine and with label 0.
    pub fn new() -> (tile: Tile)
        ensures
            tile == Tile::blank(),
    {
        Tile { bomb: false, flagged: false, visible: false, num_bombs: 0 }
    }

    /// Flips the flag and leaves the rest as it is.
    pub fn toggle_flagged(&mut self)
        ensures
            *final(self) == old(self).toggled(),
    {
        self.flagged = !self.flagged
    }

    /// Reveals the tile and leaves the rest as it is.
    pub fn set_visible(&mut self)
        ensures
            *final(self) == old(self).shown(),
    {
        self.visible = true
    }
}

} // verus!

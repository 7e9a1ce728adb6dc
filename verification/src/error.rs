//! The error of the coordinate conversion.

use vstd::prelude::*;

verus! {

/// What can go wrong when a position is turned into an index.
#[derive(Debug)]
pub enum MapError {
    /// The row or the column lies outside the grid.
    OutOfBounds,
}

impl MapError {
    /// The text shown for this error.
    pub fn message(&self) -> (text: String)
        ensures
            text@ == "Map error"@,
    {
        String::from_str("Map error")
    }
}

} // verus!

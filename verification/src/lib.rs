//! Board-state engine of a Minesweeper-style game.
//!
//! A [`Board`] is a rectangular grid of [`Tile`]s stored row by row. Building
//! one places the mines and labels every tile with the number of mines around
//! it; afterwards tiles are revealed (a reveal of a tile with no mine around it
//! spreads over the whole connected mine-free region), flagged, and the board
//! is asked whether the game is won.
//!
//! Every operation carries a contract over [`Grid`], the mathematical model of
//! a board, and is proved against it.

pub mod board;
pub mod cascade;
pub mod error;
pub mod grid;
pub mod labels;
pub mod laws;
pub mod layout;
pub mod sampling;
pub mod tile;

pub use board::Board;
pub use error::MapError;
pub use grid::{Grid, Step};
pub use tile::Tile;

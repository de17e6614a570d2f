//! Core of a terminal falling-block puzzle game.
//!
//! The playfield is a fixed grid: columns at `x` in `[-60, 50]` and rows at
//! `y` in `[-90, 90]`, both in steps of 10 (one step per cell). A [`block::Block`]
//! is one cell of a piece; a [`piece::Piece`] is a rigid group of blocks that
//! moves and rotates as a whole; the [`board::App`] owns the falling piece and
//! the settled stack and drives gravity, locking, row clearing and death
//! detection. All coordinates stay on the step-10 lattice, so every geometric
//! comparison is exact integer equality.

pub mod block;
pub mod board;
pub mod codec;
pub mod laws;
pub mod piece;
pub mod rng;

use vstd::prelude::*;

verus! {

/// Size of one grid cell, and the distance of every move step.
pub const CELL: i64 = 10;

/// Leftmost column of the playfield.
pub const X_MIN: i64 = -60;

/// Rightmost column of the playfield.
pub const X_MAX: i64 = 50;

/// Floor row of the playfield.
pub const Y_MIN: i64 = -90;

/// Topmost row a block can occupy.
pub const Y_MAX: i64 = 90;

/// Rows at or above this are the death zone: a settled block here ends the game.
pub const Y_DEATH: i64 = 80;

/// Number of columns in the playfield.
pub const N_COLS: i64 = 12;

} // verus!

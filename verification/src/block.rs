//! The atomic unit cell of a piece.

use vstd::prelude::*;

verus! {

/// One grid cell of a piece: its lower-left corner `(x, y)` and its size.
/// Width and height are always one cell; they take part in equality because
/// equality of blocks is the game's collision predicate.
#[derive(Clone, Copy, PartialEq, Eq, Structural, Debug)]
pub struct Block {
    pub x: i64,
    pub y: i64,
    pub width: i64,
    pub height: i64,
}

impl Block {
    /// A cell-sized block at `(x, y)`.
    pub fn new(x: i64, y: i64) -> (r: Block)
        ensures
            r == (Block { x, y, width: crate::CELL, height: crate::CELL }),
    {
        Block { x, y, width: crate::CELL, height: crate::CELL }
    }

    /// Structural equality on position and size: the collision predicate.
    pub fn is_equal(&self, other: &Block) -> (r: bool)
        ensures
            r == (*self == *other),
    {
        self.x == other.x && self.y == other.y
            && self.width == other.width && self.height == other.height
    }
}

} // verus!

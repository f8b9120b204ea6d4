use vstd::prelude::*;
use crate::tile::Tile;

verus! {

/// Which open end of the layout a tile is placed on.
#[derive(Debug, Clone, Copy, PartialEq, Eq, Structural)]
pub enum Direction {
    Left,
    Right,
}

/// A chosen move: a tile, already in the orientation in which it will lie on
/// the layout, and the end it goes to.
#[derive(Debug, Clone, Copy, PartialEq, Eq, Structural)]
pub struct TilePlay {
    pub tile: Tile,
    pub direction: Direction,
}

} // verus!

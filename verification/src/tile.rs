use vstd::prelude::*;

verus! {

/// One domino: two pip counts. Orientation is meaningful: `[2|5]` and `[5|2]`
/// are distinct values, related by `flip`. A well-formed tile has both pips in
/// `0..=6`.
#[derive(Debug, Clone, Copy, PartialEq, Eq, Hash, Structural)]
pub struct Tile {
    pub left: u8,
    pub right: u8,
}

impl Tile {
    /// Both pips are in the double-six range.
    pub open spec fn wf(self) -> bool {
        self.left <= 6 && self.right <= 6
    }

    pub open spec fn spec_flip(self) -> Tile {
        Tile { left: self.right, right: self.left }
    }

    /// The orientation with the smaller pip first: the representative under
    /// which a tile is counted when the full set is partitioned.
    pub open spec fn canon(self) -> Tile {
        if self.left <= self.right {
            self
        } else {
            self.spec_flip()
        }
    }

    /// A tile in canonical orientation.
    pub open spec fn is_canonical(self) -> bool {
        self.wf() && self.left <= self.right
    }

    pub open spec fn spec_score(self) -> int {
        self.left + self.right
    }

    pub fn new(left: u8, right: u8) -> (t: Tile)
        ensures
            t == (Tile { left, right }),
    {
        Tile { left, right }
    }

    /// The reversed-orientation copy; does not mutate.
    #[verifier::when_used_as_spec(spec_flip)]
    pub fn flip(self) -> (t: Tile)
        ensures
            t == self.spec_flip(),
    {
        Tile { left: self.right, right: self.left }
    }

    /// The pip sum of this tile.
    pub fn score(self) -> (s: u32)
        ensures
            s == self.spec_score(),
    {
        self.left as u32 + self.right as u32
    }
}

} // verus!

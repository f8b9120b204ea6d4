use vstd::prelude::*;
use crate::tile::Tile;
use crate::tile_play::{Direction, TilePlay};

verus! {

/// Every pair of adjacent tiles joins: the right pip of each tile equals the
/// left pip of the next.
pub open spec fn chain_ok(s: Seq<Tile>) -> bool {
    forall|i: int| 0 <= i < s.len() - 1 ==> s[i].right == #[trigger] s[i + 1].left
}

/// The open pip on the left end, `None` when the layout is empty.
pub open spec fn left_end(s: Seq<Tile>) -> Option<u8> {
    if s.len() == 0 {
        None
    } else {
        Some(s[0].left)
    }
}

/// The open pip on the right end, `None` when the layout is empty.
pub open spec fn right_end(s: Seq<Tile>) -> Option<u8> {
    if s.len() == 0 {
        None
    } else {
        Some(s[s.len() - 1].right)
    }
}

/// A tile can go somewhere: the layout is empty, or one of the tile's pips
/// equals one of the open end pips.
pub open spec fn spec_playable(s: Seq<Tile>, t: Tile) -> bool {
    s.len() == 0 || left_end(s) == Some(t.left) || left_end(s) == Some(t.right) || right_end(s)
        == Some(t.left) || right_end(s) == Some(t.right)
}

/// An oriented placement is legal: on an empty layout anything goes; otherwise
/// the adjoining pip of the tile must equal the open pip of the chosen end.
pub open spec fn placement_ok(s: Seq<Tile>, tp: TilePlay) -> bool {
    if s.len() == 0 {
        true
    } else {
        match tp.direction {
            Direction::Left => left_end(s) == Some(tp.tile.right),
            Direction::Right => right_end(s) == Some(tp.tile.left),
        }
    }
}

/// The layout after a legal oriented placement: prepend on the left end,
/// append on the right end.
pub open spec fn spec_play(s: Seq<Tile>, tp: TilePlay) -> Seq<Tile> {
    if s.len() == 0 {
        seq![tp.tile]
    } else {
        match tp.direction {
            Direction::Left => s.insert(0, tp.tile),
            Direction::Right => s.push(tp.tile),
        }
    }
}

/// The layout after adding an unoriented playable tile, oriented and placed by
/// the fixed precedence: left end joining the tile's right pip first, then the
/// left end joining its left pip, then the right end likewise.
pub open spec fn spec_add(s: Seq<Tile>, t: Tile) -> Seq<Tile> {
    if s.len() == 0 {
        seq![t]
    } else if left_end(s) == Some(t.right) {
        s.insert(0, t)
    } else if left_end(s) == Some(t.left) {
        s.insert(0, t.spec_flip())
    } else if right_end(s) == Some(t.left) {
        s.push(t)
    } else {
        s.push(t.spec_flip())
    }
}

/// Prepending a tile whose right pip joins the old left end keeps the chain
/// valid.
pub proof fn lemma_chain_insert_front(s: Seq<Tile>, t: Tile)
    requires
        chain_ok(s),
        s.len() > 0 ==> t.right == s[0].left,
    ensures
        chain_ok(s.insert(0, t)),
{
    let s2 = s.insert(0, t);
    s.insert_ensures(0, t);
    assert forall|i: int| 0 <= i < s2.len() - 1 implies s2[i].right == #[trigger] s2[i + 1].left by {
        if i == 0 {
            assert(s2[0] == t);
            assert(s2[0int + 1] == s[0]);
        } else {
            assert(s2[(i - 1) + 1] == s[i - 1]);
            assert(s2[i + 1] == s[i]);
        }
    }
}

/// Appending a tile whose left pip joins the old right end keeps the chain
/// valid.
pub proof fn lemma_chain_push(s: Seq<Tile>, t: Tile)
    requires
        chain_ok(s),
        s.len() > 0 ==> s[s.len() - 1].right == t.left,
    ensures
        chain_ok(s.push(t)),
{
    let s2 = s.push(t);
    assert forall|i: int| 0 <= i < s2.len() - 1 implies s2[i].right == #[trigger] s2[i + 1].left by {
        if i < s.len() - 1 {
            assert(s2[i] == s[i]);
            assert(s2[i + 1] == s[i + 1]);
        } else {
            assert(s2[i] == s[s.len() - 1]);
            assert(s2[i + 1] == t);
        }
    }
}

/// The layout (also called board or snake): the ordered chain of placed tiles,
/// each stored in the orientation in which it lies. It only ever grows at its
/// two ends and always remains a valid chain.
#[derive(Debug, Clone, PartialEq, Eq)]
pub struct Snake {
    pub tiles: Vec<Tile>,
}

impl View for Snake {
    type V = Seq<Tile>;

    open spec fn view(&self) -> Seq<Tile> {
        self.tiles@
    }
}

impl Snake {
    pub fn new() -> (s: Snake)
        ensures
            s@ == Seq::<Tile>::empty(),
    {
        let s = Snake { tiles: Vec::new() };
        proof {
            assert(s@ =~= Seq::<Tile>::empty());
        }
        s
    }

    pub fn left(&self) -> (r: Option<u8>)
        ensures
            r == left_end(self@),
    {
        if self.tiles.len() == 0 {
            None
        } else {
            Some(self.tiles[0].left)
        }
    }

    pub fn right(&self) -> (r: Option<u8>)
        ensures
            r == right_end(self@),
    {
        if self.tiles.len() == 0 {
            None
        } else {
            Some(self.tiles[self.tiles.len() - 1].right)
        }
    }

    pub fn is_empty(&self) -> (r: bool)
        ensures
            r == (self@.len() == 0),
    {
        self.tiles.len() == 0
    }

    /// True iff the layout is empty or the tile's left or right pip equals the
    /// layout's left or right open end.
    pub fn is_playable(&self, tile: Tile) -> (r: bool)
        ensures
            r == spec_playable(self@, tile),
    {
        let left = self.left();
        let right = self.right();
        left.is_none() || left == Some(tile.left) || left == Some(tile.right) || right == Some(
            tile.left,
        ) || right == Some(tile.right)
    }

    /// Place an already oriented tile on the given end. Legality is the
    /// caller's responsibility; the chain stays valid.
    pub fn play(&mut self, tp: TilePlay)
        requires
            chain_ok(old(self)@),
            placement_ok(old(self)@, tp),
        ensures
            final(self)@ == spec_play(old(self)@, tp),
            chain_ok(final(self)@),
    {
        if self.tiles.len() == 0 {
            self.tiles.push(tp.tile);
            proof {
                assert(self@ =~= seq![tp.tile]);
            }
        } else {
            match tp.direction {
                Direction::Left => {
                    proof {
                        lemma_chain_insert_front(self@, tp.tile);
                    }
                    self.tiles.insert(0, tp.tile);
                },
                Direction::Right => {
                    proof {
                        lemma_chain_push(self@, tp.tile);
                    }
                    self.tiles.push(tp.tile);
                },
            }
        }
    }

    /// Add a playable tile, choosing its orientation and end by the fixed
    /// precedence of `spec_add`. The chain stays valid.
    pub fn add(&mut self, tile: Tile)
        requires
            chain_ok(old(self)@),
            spec_playable(old(self)@, tile),
        ensures
            final(self)@ == spec_add(old(self)@, tile),
            chain_ok(final(self)@),
    {
        let left = self.left();
        let right = self.right();
        if self.tiles.len() == 0 {
            self.tiles.push(tile);
            proof {
                assert(self@ =~= seq![tile]);
            }
        } else if left == Some(tile.right) {
            proof {
                lemma_chain_insert_front(self@, tile);
            }
            self.tiles.insert(0, tile);
        } else if left == Some(tile.left) {
            proof {
                lemma_chain_insert_front(self@, tile.spec_flip());
            }
            self.tiles.insert(0, tile.flip());
        } else if right == Some(tile.left) {
            proof {
                lemma_chain_push(self@, tile);
            }
            self.tiles.push(tile);
        } else {
            proof {
                lemma_chain_push(self@, tile.spec_flip());
            }
            self.tiles.push(tile.flip());
        }
    }

    /// Check the chain adjacency of the stored sequence.
    pub fn is_valid(&self) -> (r: bool)
        ensures
            r == chain_ok(self@),
    {
        if self.tiles.len() == 0 {
            return true;
        }
        let mut i: usize = 0;
        while i < self.tiles.len() - 1
            invariant
                i <= self.tiles.len() - 1,
                self.tiles.len() > 0,
                forall|j: int| 0 <= j < i ==> self.tiles@[j].right == #[trigger] self.tiles@[j + 1].left,
            decreases self.tiles.len() - i,
        {
            if self.tiles[i].right != self.tiles[i + 1].left {
                return false;
            }
            i = i + 1;
        }
        true
    }
}

} // verus!

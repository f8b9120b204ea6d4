use vstd::prelude::*;
use crate::boneyard::{full_tile_set, is_full_pool, pool, tile_lex_lt};
use crate::hand::tiles_wf;
use crate::tile::Tile;

verus! {

/// The tile shows one of the two pips.
pub open spec fn tile_has_pip(t: Tile, p0: u8, p1: u8) -> bool {
    t.left == p0 || t.right == p0 || t.left == p1 || t.right == p1
}

/// The candidates left after discarding every tile that shows one of the two
/// pips, in their original order.
pub open spec fn prune(s: Seq<Tile>, p0: u8, p1: u8) -> Seq<Tile>
    decreases s.len(),
{
    if s.len() == 0 {
        s
    } else {
        let rest = prune(s.drop_last(), p0, p1);
        if tile_has_pip(s.last(), p0, p1) {
            rest
        } else {
            rest.push(s.last())
        }
    }
}

/// The first index holding exactly `t`; the sequence length when absent.
pub open spec fn find_tile(s: Seq<Tile>, t: Tile) -> int
    decreases s.len(),
{
    if s.len() == 0 {
        0
    } else if s[0] == t {
        0
    } else {
        1 + find_tile(s.drop_first(), t)
    }
}

/// `find_tile` finds an index of `t` exactly when the sequence contains it.
pub proof fn lemma_find_tile(s: Seq<Tile>, t: Tile)
    ensures
        s.contains(t) ==> 0 <= find_tile(s, t) < s.len() && s[find_tile(s, t)] == t,
        !s.contains(t) ==> find_tile(s, t) == s.len(),
    decreases s.len(),
{
    if s.len() > 0 && s[0] != t {
        lemma_find_tile(s.drop_first(), t);
        assert(forall|i: int| 0 <= i < s.len() - 1 ==> s.drop_first()[i] == s[i + 1]);
        if s.contains(t) {
            let i = choose|i: int| 0 <= i < s.len() && s[i] == t;
            assert(s.drop_first()[i - 1] == s[i]);
        } else {
            if s.drop_first().contains(t) {
                let i = choose|i: int| 0 <= i < s.len() - 1 && s.drop_first()[i] == t;
                assert(s[i + 1] == t);
            }
        }
    }
}

/// If the first occurrence of `t` is at or beyond `i`, position `i` either
/// holds `t` and is that occurrence, or the occurrence is beyond `i`.
pub proof fn lemma_find_tile_step(s: Seq<Tile>, t: Tile, i: int)
    requires
        0 <= i < s.len(),
        find_tile(s, t) >= i,
    ensures
        s[i] == t ==> find_tile(s, t) == i,
        s[i] != t ==> find_tile(s, t) >= i + 1,
    decreases s.len(),
{
    if i > 0 {
        assert(s[0] != t);
        assert(s.drop_first()[i - 1] == s[i]);
        lemma_find_tile_step(s.drop_first(), t, i - 1);
    } else {
        if s[0] != t {
            lemma_find_tile_nonneg(s.drop_first(), t);
        }
    }
}

pub proof fn lemma_find_tile_nonneg(s: Seq<Tile>, t: Tile)
    ensures
        find_tile(s, t) >= 0,
    decreases s.len(),
{
    if s.len() > 0 && s[0] != t {
        lemma_find_tile_nonneg(s.drop_first(), t);
    }
}

/// What the opponent could still hold: a candidate set over the double-six
/// tiles, pruned as information arrives, plus the believed size of that
/// hand. An observing strategy clears a candidate whenever a tile is
/// revealed, and clears a whole pip class when a block proves the opponent
/// holds neither open end.
pub struct PossibleHand {
    pub possible_tiles: Vec<Tile>,
    pub size: u8,
}

impl View for PossibleHand {
    type V = Seq<Tile>;

    open spec fn view(&self) -> Seq<Tile> {
        self.possible_tiles@
    }
}

impl PossibleHand {
    /// Before anything is known every tile is a candidate: the full set, in
    /// lexicographic order.
    pub fn new() -> (p: PossibleHand)
        ensures
            p@.len() == 28,
            is_full_pool(pool(p@)),
            tiles_wf(p@),
            forall|i: int, j: int|
                0 <= i < j < p@.len() ==> tile_lex_lt(#[trigger] p@[i], #[trigger] p@[j]),
            p.size == 0,
    {
        PossibleHand { possible_tiles: full_tile_set(), size: 0 }
    }

    /// Discard the first candidate equal to `tile`. Asking for an absent
    /// tile is a tracking bug in the caller, excluded by contract.
    pub fn remove_tile(&mut self, tile: Tile)
        requires
            old(self)@.contains(tile),
        ensures
            final(self)@ == old(self)@.remove(find_tile(old(self)@, tile)),
            final(self).size == old(self).size,
    {
        proof {
            lemma_find_tile(self@, tile);
        }
        let ghost orig = self@;
        let mut i: usize = 0;
        while i < self.possible_tiles.len()
            invariant
                0 <= i <= self@.len(),
                self@ == orig,
                orig == old(self)@,
                self.size == old(self).size,
                orig.contains(tile),
                i <= find_tile(orig, tile) < orig.len(),
            decreases self@.len() - i,
        {
            proof {
                lemma_find_tile_step(orig, tile, i as int);
            }
            let c = self.possible_tiles[i];
            if c.left == tile.left && c.right == tile.right {
                assert(orig[i as int] == tile);
                self.possible_tiles.remove(i);
                return ;
            }
            i = i + 1;
        }
        proof {
            assert(false);
        }
    }

    /// Discard every candidate showing either pip: after a block against
    /// these open ends, the opponent can hold none of them.
    pub fn remove_tiles_with_pips(&mut self, pips: [u8; 2])
        ensures
            final(self)@ == prune(old(self)@, pips@[0], pips@[1]),
            final(self).size == old(self).size,
    {
        let p0 = pips[0];
        let p1 = pips[1];
        let ghost orig = self@;
        let orig_len: usize = self.possible_tiles.len();
        let mut index: usize = 0;
        let mut k: usize = 0;
        proof {
            assert(orig.take(0).len() == 0);
            assert(self@ =~= prune(orig.take(0), p0, p1) + orig.skip(0));
        }
        while index < self.possible_tiles.len()
            invariant
                0 <= k <= orig.len(),
                orig.len() == orig_len,
                orig == old(self)@,
                self.size == old(self).size,
                self@ == prune(orig.take(k as int), p0, p1) + orig.skip(k as int),
                index == prune(orig.take(k as int), p0, p1).len(),
                p0 == pips@[0],
                p1 == pips@[1],
            decreases orig.len() - k,
        {
            proof {
                assert(self@.len() == index + orig.len() - k);
                assert(k < orig.len());
                assert(self@[index as int] == orig.skip(k as int)[0]);
                assert(orig.skip(k as int)[0] == orig[k as int]);
                assert(orig.take(k + 1).drop_last() =~= orig.take(k as int));
                assert(orig.take(k + 1).last() == orig[k as int]);
            }
            let t = self.possible_tiles[index];
            if t.left == p0 || t.right == p0 || t.left == p1 || t.right == p1 {
                self.possible_tiles.remove(index);
                proof {
                    assert(self@ =~= prune(orig.take(k + 1), p0, p1) + orig.skip(k + 1));
                }
            } else {
                index = index + 1;
                proof {
                    assert(self@ =~= prune(orig.take(k + 1), p0, p1) + orig.skip(k + 1));
                }
            }
            k = k + 1;
        }
        proof {
            assert(orig.take(orig.len() as int) =~= orig);
            assert(self@ =~= prune(orig, p0, p1));
        }
    }
}

} // verus!

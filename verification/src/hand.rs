use vstd::prelude::*;
use crate::tile::Tile;

verus! {

/// The pip sum of a sequence of tiles.
pub open spec fn pip_sum(s: Seq<Tile>) -> int
    decreases s.len(),
{
    if s.len() == 0 {
        0
    } else {
        pip_sum(s.drop_last()) + s.last().spec_score()
    }
}

/// All tiles in a sequence are well formed.
pub open spec fn tiles_wf(s: Seq<Tile>) -> bool {
    forall|i: int| 0 <= i < s.len() ==> (#[trigger] s[i]).wf()
}

/// The pip sum is never negative.
pub proof fn lemma_pip_sum_nonneg(s: Seq<Tile>)
    ensures
        pip_sum(s) >= 0,
    decreases s.len(),
{
    if s.len() > 0 {
        lemma_pip_sum_nonneg(s.drop_last());
    }
}

/// Well-formed tiles score at most 12 each.
pub proof fn lemma_pip_sum_bound(s: Seq<Tile>)
    requires
        tiles_wf(s),
    ensures
        pip_sum(s) <= 12 * s.len(),
    decreases s.len(),
{
    if s.len() > 0 {
        assert(tiles_wf(s.drop_last())) by {
            assert(forall|i: int| 0 <= i < s.len() - 1 ==> s.drop_last()[i] == s[i]);
        }
        lemma_pip_sum_bound(s.drop_last());
    }
}

/// The first index whose tile equals `t` or its flip; the sequence length when
/// there is none.
pub open spec fn find_match(s: Seq<Tile>, t: Tile) -> int
    decreases s.len(),
{
    if s.len() == 0 {
        0
    } else if s[0] == t || s[0] == t.spec_flip() {
        0
    } else {
        1 + find_match(s.drop_first(), t)
    }
}

/// Some entry of the sequence is `t` or its flip.
pub open spec fn has_match(s: Seq<Tile>, t: Tile) -> bool {
    exists|i: int| 0 <= i < s.len() && (s[i] == t || s[i] == t.spec_flip())
}

/// `find_match` finds a matching index exactly when one exists.
pub proof fn lemma_find_match(s: Seq<Tile>, t: Tile)
    ensures
        has_match(s, t) ==> 0 <= find_match(s, t) < s.len() && (s[find_match(s, t)] == t || s[
            find_match(s, t)
        ] == t.spec_flip()),
        !has_match(s, t) ==> find_match(s, t) == s.len(),
    decreases s.len(),
{
    if s.len() == 0 {
    } else if s[0] == t || s[0] == t.spec_flip() {
    } else {
        lemma_find_match(s.drop_first(), t);
        assert(forall|i: int| 0 <= i < s.len() - 1 ==> s.drop_first()[i] == s[i + 1]);
        if has_match(s, t) {
            let i = choose|i: int| 0 <= i < s.len() && (s[i] == t || s[i] == t.spec_flip());
            assert(s.drop_first()[i - 1] == s[i]);
            assert(has_match(s.drop_first(), t));
        } else {
            if has_match(s.drop_first(), t) {
                let i = choose|i: int|
                    0 <= i < s.len() - 1 && (s.drop_first()[i] == t || s.drop_first()[i]
                        == t.spec_flip());
                assert(s[i + 1] == s.drop_first()[i]);
            }
        }
    }
}

/// A player's tile collection. A hand never holds more than 21 tiles: the
/// deal gives 7 and at most the 14 undealt tiles can ever be drawn.
#[derive(Debug, Clone, PartialEq, Eq)]
pub struct Hand {
    pub tiles: Vec<Tile>,
}

impl View for Hand {
    type V = Seq<Tile>;

    open spec fn view(&self) -> Seq<Tile> {
        self.tiles@
    }
}

impl Hand {
    /// Well-formed tiles, within the bound a hand can ever reach.
    pub open spec fn wf(self) -> bool {
        tiles_wf(self@) && self@.len() <= 21
    }

    pub fn new() -> (h: Hand)
        ensures
            h@ == Seq::<Tile>::empty(),
    {
        let h = Hand { tiles: Vec::new() };
        proof {
            assert(h@ =~= Seq::<Tile>::empty());
        }
        h
    }

    pub fn is_empty(&self) -> (r: bool)
        ensures
            r == (self@.len() == 0),
    {
        self.tiles.len() == 0
    }

    pub fn len(&self) -> (n: usize)
        ensures
            n == self@.len(),
    {
        self.tiles.len()
    }

    pub fn add(&mut self, tile: Tile)
        requires
            old(self)@.len() < 21,
        ensures
            final(self)@ == old(self)@.push(tile),
    {
        self.tiles.push(tile);
    }

    pub fn add_multiple(&mut self, tiles: Vec<Tile>)
        requires
            old(self)@.len() + tiles@.len() <= 21,
        ensures
            final(self)@ == old(self)@ + tiles@,
    {
        let mut tiles = tiles;
        self.tiles.append(&mut tiles);
    }

    /// Whether some entry equals `t` or its flip.
    pub fn contains_matching(&self, t: Tile) -> (r: bool)
        ensures
            r == has_match(self@, t),
    {
        let mut i: usize = 0;
        while i < self.tiles.len()
            invariant
                i <= self@.len(),
                forall|j: int| 0 <= j < i ==> !(#[trigger] self@[j] == t || self@[j] == t.spec_flip()),
            decreases self@.len() - i,
        {
            let c = self.tiles[i];
            if c.left == t.left && c.right == t.right || c.left == t.right && c.right == t.left {
                assert(self@[i as int] == t || self@[i as int] == t.spec_flip());
                return true;
            }
            i = i + 1;
        }
        false
    }

    /// Remove and return the first entry equal to `tile` or its flip. Asking
    /// for a tile the hand does not hold is a strategy-layer bug, excluded by
    /// contract.
    pub fn remove_matching(&mut self, tile: Tile) -> (t: Tile)
        requires
            has_match(old(self)@, tile),
        ensures
            final(self)@ == old(self)@.remove(find_match(old(self)@, tile)),
            t == old(self)@[find_match(old(self)@, tile)],
            t == tile || t == tile.spec_flip(),
    {
        proof {
            lemma_find_match(self@, tile);
        }
        let ghost orig = self@;
        let mut i: usize = 0;
        while i < self.tiles.len()
            invariant
                0 <= i <= self@.len(),
                self@ == orig,
                orig == old(self)@,
                has_match(orig, tile),
                i <= find_match(orig, tile) < orig.len(),
            decreases self@.len() - i,
        {
            proof {
                lemma_find_match_step(orig, tile, i as int);
            }
            let c = self.tiles[i];
            if c.left == tile.left && c.right == tile.right || c.left == tile.right && c.right
                == tile.left {
                assert(orig[i as int] == tile || orig[i as int] == tile.spec_flip());
                assert(find_match(orig, tile) == i);
                return self.tiles.remove(i);
            }
            i = i + 1;
        }
        proof {
            assert(false);
        }
        unreached()
    }

    /// The pip sum of the hand.
    pub fn score(&self) -> (s: u32)
        requires
            self.wf(),
        ensures
            s == pip_sum(self@),
    {
        let mut total: u32 = 0;
        let mut i: usize = 0;
        proof {
            lemma_pip_sum_nonneg(self@);
            lemma_pip_sum_bound(self@);
        }
        while i < self.tiles.len()
            invariant
                i <= self@.len(),
                self.wf(),
                total == pip_sum(self@.take(i as int)),
                total <= 12 * i,
            decreases self@.len() - i,
        {
            proof {
                assert(self@.take(i + 1).drop_last() =~= self@.take(i as int));
                assert(self@.take(i + 1).last() == self@[i as int]);
            }
            total = total + self.tiles[i].score();
            i = i + 1;
        }
        proof {
            assert(self@.take(self@.len() as int) =~= self@);
        }
        total
    }
}

/// If the first match is at or beyond `i`, either position `i` matches and is
/// the first match, or the first match is beyond `i`.
pub proof fn lemma_find_match_step(s: Seq<Tile>, t: Tile, i: int)
    requires
        0 <= i < s.len(),
        find_match(s, t) >= i,
    ensures
        (s[i] == t || s[i] == t.spec_flip()) ==> find_match(s, t) == i,
        !(s[i] == t || s[i] == t.spec_flip()) ==> find_match(s, t) >= i + 1,
    decreases s.len(),
{
    if i > 0 {
        assert(!(s[0] == t || s[0] == t.spec_flip()));
        assert(s.drop_first()[i - 1] == s[i]);
        lemma_find_match_step(s.drop_first(), t, i - 1);
    } else {
        lemma_find_match_nonneg(s.drop_first(), t);
    }
}

/// The first-match index is never negative.
pub proof fn lemma_find_match_nonneg(s: Seq<Tile>, t: Tile)
    ensures
        find_match(s, t) >= 0,
    decreases s.len(),
{
    if s.len() > 0 && !(s[0] == t || s[0] == t.spec_flip()) {
        lemma_find_match_nonneg(s.drop_first(), t);
    }
}

} // verus!

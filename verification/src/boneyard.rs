use vstd::prelude::*;
use vstd::multiset::Multiset;
use crate::tile::Tile;
use crate::hand::tiles_wf;

verus! {

/// The multiset of tiles held by a sequence, each counted in canonical
/// orientation, so that a flipped tile on the layout is still the same
/// domino.
pub open spec fn pool(s: Seq<Tile>) -> Multiset<Tile>
    decreases s.len(),
{
    if s.len() == 0 {
        Multiset::empty()
    } else {
        pool(s.drop_last()).insert(s.last().canon())
    }
}

/// A pool drawn from the double-six set: every tile counted at most once, and
/// only canonical well-formed tiles occur.
pub open spec fn dup_free_pool(m: Multiset<Tile>) -> bool {
    forall|t: Tile|
        #[trigger] m.count(t) <= 1 && (m.count(t) == 1 ==> t.is_canonical())
}

/// The complete double-six pool: every canonical tile exactly once, nothing
/// else. There are 28 such tiles.
pub open spec fn is_full_pool(m: Multiset<Tile>) -> bool {
    forall|t: Tile|
        #[trigger] m.count(t) == (if t.is_canonical() {
            1nat
        } else {
            0nat
        })
}

pub proof fn lemma_pool_push(s: Seq<Tile>, t: Tile)
    ensures
        pool(s.push(t)) == pool(s).insert(t.canon()),
{
    assert(s.push(t).drop_last() =~= s);
    assert(s.push(t).last() == t);
}

pub proof fn lemma_pool_remove(s: Seq<Tile>, i: int)
    requires
        0 <= i < s.len(),
    ensures
        pool(s) == pool(s.remove(i)).insert(s[i].canon()),
    decreases s.len(),
{
    if i == s.len() - 1 {
        assert(s.remove(i) =~= s.drop_last());
    } else {
        assert(s.remove(i).drop_last() =~= s.drop_last().remove(i));
        assert(s.remove(i).last() == s.last());
        lemma_pool_remove(s.drop_last(), i);
        assert(s.drop_last()[i] == s[i]);
        assert(pool(s.drop_last()) == pool(s.drop_last().remove(i)).insert(s[i].canon()));
        assert(pool(s) == pool(s.drop_last()).insert(s.last().canon()));
        assert(pool(s.remove(i)) == pool(s.drop_last().remove(i)).insert(s.last().canon()));
        assert(pool(s.drop_last().remove(i)).insert(s[i].canon()).insert(s.last().canon())
            =~= pool(s.drop_last().remove(i)).insert(s.last().canon()).insert(s[i].canon()));
    }
}

pub proof fn lemma_pool_insert_front(s: Seq<Tile>, t: Tile)
    ensures
        pool(s.insert(0, t)) == pool(s).insert(t.canon()),
{
    let s2 = s.insert(0, t);
    s.insert_ensures(0, t);
    assert(s2.remove(0) =~= s);
    lemma_pool_remove(s2, 0);
}

pub proof fn lemma_pool_append(a: Seq<Tile>, b: Seq<Tile>)
    ensures
        pool(a + b) == pool(a).add(pool(b)),
    decreases b.len(),
{
    if b.len() == 0 {
        assert(a + b =~= a);
        assert(pool(a).add(pool(b)) =~= pool(a));
    } else {
        assert((a + b).drop_last() =~= a + b.drop_last());
        assert((a + b).last() == b.last());
        lemma_pool_append(a, b.drop_last());
        assert(pool(a).add(pool(b.drop_last()).insert(b.last().canon())) =~= pool(a).add(
            pool(b.drop_last()),
        ).insert(b.last().canon()));
    }
}

/// Sequences with equal element multisets have equal pools: a pool is
/// invariant under permutation.
pub proof fn lemma_pool_permutation(s1: Seq<Tile>, s2: Seq<Tile>)
    requires
        s1.to_multiset() == s2.to_multiset(),
    ensures
        pool(s1) == pool(s2),
    decreases s1.len(),
{
    broadcast use vstd::seq_lib::group_to_multiset_ensures;

    if s1.len() == 0 {
        assert(s1.to_multiset().len() == s1.len());
        assert(s2.to_multiset().len() == s2.len());
    } else {
        let t = s1.last();
        assert(s1.to_multiset().count(t) >= 1) by {
            assert(s1.contains(t));
        }
        assert(s2.contains(t));
        let j = choose|j: int| 0 <= j < s2.len() && s2[j] == t;
        assert(s1.drop_last() =~= s1.remove(s1.len() - 1));
        assert(s1.drop_last().to_multiset() == s1.to_multiset().remove(t));
        assert(s2.remove(j).to_multiset() == s2.to_multiset().remove(t));
        lemma_pool_permutation(s1.drop_last(), s2.remove(j));
        lemma_pool_remove(s2, j);
    }
}

/// How many canonical tiles have a left pip below `l`.
pub open spec fn tiles_below(l: int) -> int
    decreases l,
{
    if l <= 0 {
        0
    } else {
        tiles_below(l - 1) + (8 - l)
    }
}

/// A canonical tile ordered strictly before the pair `(l, r)` in the
/// lexicographic enumeration of the double-six set.
pub open spec fn enumerated_before(t: Tile, l: int, r: int) -> bool {
    t.left < l || (t.left == l && t.right < r)
}

/// Strict lexicographic order on tiles, smaller left pip first.
pub open spec fn tile_lex_lt(a: Tile, b: Tile) -> bool {
    a.left < b.left || (a.left == b.left && a.right < b.right)
}

/// The full double-six set: the 28 canonical tiles, strictly ascending in
/// lexicographic order.
pub fn full_tile_set() -> (tiles: Vec<Tile>)
    ensures
        tiles@.len() == 28,
        is_full_pool(pool(tiles@)),
        tiles_wf(tiles@),
        forall|i: int, j: int|
            0 <= i < j < tiles@.len() ==> tile_lex_lt(#[trigger] tiles@[i], #[trigger] tiles@[j]),
{
    let mut tiles: Vec<Tile> = Vec::new();
    let mut left: u8 = 0;
    proof {
        assert(pool(tiles@) =~= Multiset::empty());
    }
    while left < 7
        invariant
            left <= 7,
            tiles_wf(tiles@),
            tiles@.len() == tiles_below(left as int),
            forall|t: Tile|
                #[trigger] pool(tiles@).count(t) == (if t.is_canonical() && enumerated_before(
                    t,
                    left as int,
                    left as int,
                ) {
                    1nat
                } else {
                    0nat
                }),
            forall|k: int|
                0 <= k < tiles@.len() ==> enumerated_before(
                    #[trigger] tiles@[k],
                    left as int,
                    left as int,
                ),
            forall|i: int, j: int|
                0 <= i < j < tiles@.len() ==> tile_lex_lt(#[trigger] tiles@[i], #[trigger] tiles@[j]),
        decreases 7 - left,
    {
        let mut right: u8 = left;
        while right < 7
            invariant
                left < 7,
                left <= right <= 7,
                tiles_wf(tiles@),
                tiles@.len() == tiles_below(left as int) + (right - left),
                forall|t: Tile|
                    #[trigger] pool(tiles@).count(t) == (if t.is_canonical() && enumerated_before(
                        t,
                        left as int,
                        right as int,
                    ) {
                        1nat
                    } else {
                        0nat
                    }),
                forall|k: int|
                    0 <= k < tiles@.len() ==> enumerated_before(
                        #[trigger] tiles@[k],
                        left as int,
                        right as int,
                    ),
                forall|i: int, j: int|
                    0 <= i < j < tiles@.len() ==> tile_lex_lt(
                        #[trigger] tiles@[i],
                        #[trigger] tiles@[j],
                    ),
            decreases 7 - right,
        {
            let tile = Tile::new(left, right);
            proof {
                lemma_pool_push(tiles@, tile);
                assert(tile.canon() == tile);
            }
            tiles.push(tile);
            right = right + 1;
        }
        left = left + 1;
    }
    proof {
        assert(tiles_below(0) == 0);
        assert(tiles_below(1) == 7);
        assert(tiles_below(2) == 13);
        assert(tiles_below(3) == 18);
        assert(tiles_below(4) == 22);
        assert(tiles_below(5) == 25);
        assert(tiles_below(6) == 27);
        assert(tiles_below(7) == 28);
    }
    tiles
}

/// The stock (boneyard): the undealt remainder of the shuffled double-six
/// set, drawn from the back.
#[derive(Debug, Clone, PartialEq, Eq)]
pub struct Boneyard {
    pub tiles: Vec<Tile>,
}

impl View for Boneyard {
    type V = Seq<Tile>;

    open spec fn view(&self) -> Seq<Tile> {
        self.tiles@
    }
}

#[verifier::external_type_specification]
#[verifier::external_body]
pub struct ExStdRng(rand::rngs::StdRng);

/// Relies on rand's `SliceRandom::shuffle`: an in-place Fisher-Yates that
/// permutes the slice by element swaps, so the length and the multiset of
/// elements are unchanged.
#[verifier::external_body]
fn shuffle_tiles(tiles: &mut Vec<Tile>, rng: &mut rand::rngs::StdRng)
    ensures
        final(tiles)@.to_multiset() == old(tiles)@.to_multiset(),
        final(tiles)@.len() == old(tiles)@.len(),
{
    rand::seq::SliceRandom::shuffle(tiles.as_mut_slice(), rng);
}

impl Boneyard {
    /// The full, unshuffled double-six set, in lexicographic order.
    pub fn new() -> (b: Boneyard)
        ensures
            b@.len() == 28,
            is_full_pool(pool(b@)),
            tiles_wf(b@),
            forall|i: int, j: int|
                0 <= i < j < b@.len() ==> tile_lex_lt(#[trigger] b@[i], #[trigger] b@[j]),
    {
        Boneyard { tiles: full_tile_set() }
    }

    /// Shuffle the stock. The order of the outcome is up to the random number
    /// generator; the tiles themselves are unchanged.
    pub fn shuffle(self, rng: &mut rand::rngs::StdRng) -> (b: Boneyard)
        ensures
            pool(b@) == pool(self@),
            b@.len() == self@.len(),
            tiles_wf(self@) ==> tiles_wf(b@),
    {
        let mut tiles = self.tiles;
        let ghost orig = tiles@;
        shuffle_tiles(&mut tiles, rng);
        proof {
            lemma_pool_permutation(tiles@, orig);
            if tiles_wf(orig) {
                broadcast use vstd::seq_lib::group_to_multiset_ensures;

                assert forall|i: int| 0 <= i < tiles@.len() implies (#[trigger] tiles@[i]).wf() by {
                    assert(tiles@.contains(tiles@[i]));
                    assert(tiles@.to_multiset().count(tiles@[i]) > 0);
                    assert(orig.contains(tiles@[i]));
                }
            }
        }
        Boneyard { tiles }
    }

    /// Remove and return the top `n` tiles, oldest of them first.
    pub fn draw_n(&mut self, n: usize) -> (drawn: Vec<Tile>)
        requires
            n <= old(self)@.len(),
        ensures
            drawn@ == old(self)@.skip(old(self)@.len() - n),
            final(self)@ == old(self)@.take(old(self)@.len() - n),
    {
        let k = self.tiles.len() - n;
        let mut drawn: Vec<Tile> = Vec::new();
        let mut i: usize = k;
        while i < self.tiles.len()
            invariant
                k <= i <= self@.len(),
                k == self@.len() - n,
                self@ == old(self)@,
                drawn@ == self@.subrange(k as int, i as int),
            decreases self@.len() - i,
        {
            drawn.push(self.tiles[i]);
            proof {
                assert(drawn@ =~= self@.subrange(k as int, i + 1));
            }
            i = i + 1;
        }
        self.tiles.truncate(k);
        proof {
            assert(drawn@ =~= old(self)@.skip(old(self)@.len() - n));
            assert(final(self)@ =~= old(self)@.take(old(self)@.len() - n));
        }
        drawn
    }

    /// Remove and return the top tile. Drawing from an empty stock is a bug
    /// in the caller, excluded by contract.
    pub fn draw(&mut self) -> (t: Tile)
        requires
            old(self)@.len() > 0,
        ensures
            t == old(self)@.last(),
            final(self)@ == old(self)@.drop_last(),
    {
        let t = self.tiles.pop().unwrap();
        t
    }

    pub fn is_empty(&self) -> (r: bool)
        ensures
            r == (self@.len() == 0),
    {
        self.tiles.len() == 0
    }

    pub fn len(&self) -> (n: usize)
        ensures
            n == self@.len(),
    {
        self.tiles.len()
    }
}

} // verus!

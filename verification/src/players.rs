use vstd::prelude::*;
use crate::hand::Hand;
use crate::snake::{Snake, placement_ok, spec_playable};
use crate::tile::Tile;
use crate::tile_play::{Direction, TilePlay};

verus! {

/// The play uses a tile the hand actually holds, in either orientation.
pub open spec fn from_hand(hand: Seq<Tile>, tp: TilePlay) -> bool {
    exists|i: int|
        0 <= i < hand.len() && (hand[i] == tp.tile || hand[i] == tp.tile.spec_flip())
}

/// The legal placements of one tile, probed in the fixed order: the tile as
/// held on the left end, then on the right end, then flipped likewise.
pub open spec fn tile_candidates(s: Seq<Tile>, t: Tile) -> Seq<TilePlay> {
    let tp1 = TilePlay { tile: t, direction: Direction::Left };
    let tp2 = TilePlay { tile: t, direction: Direction::Right };
    let tp3 = TilePlay { tile: t.spec_flip(), direction: Direction::Left };
    let tp4 = TilePlay { tile: t.spec_flip(), direction: Direction::Right };
    (if placement_ok(s, tp1) {
        seq![tp1]
    } else {
        Seq::empty()
    }) + (if placement_ok(s, tp2) {
        seq![tp2]
    } else {
        Seq::empty()
    }) + (if placement_ok(s, tp3) {
        seq![tp3]
    } else {
        Seq::empty()
    }) + (if placement_ok(s, tp4) {
        seq![tp4]
    } else {
        Seq::empty()
    })
}

/// All legal plays of a hand against a layout, tiles in hand order, each
/// tile's placements in probe order.
pub open spec fn legal_plays_spec(s: Seq<Tile>, hand: Seq<Tile>) -> Seq<TilePlay>
    decreases hand.len(),
{
    if hand.len() == 0 {
        Seq::empty()
    } else {
        legal_plays_spec(s, hand.drop_last()) + tile_candidates(s, hand.last())
    }
}

/// A tile has a legal placement exactly when it is playable.
pub proof fn lemma_candidates_iff_playable(s: Seq<Tile>, t: Tile)
    ensures
        tile_candidates(s, t).len() > 0 <==> spec_playable(s, t),
{
}

/// A legal placement of a held tile, in either orientation, is among that
/// tile's candidates.
pub proof fn lemma_candidates_complete(s: Seq<Tile>, t: Tile, tp: TilePlay)
    requires
        placement_ok(s, tp),
        tp.tile == t || tp.tile == t.spec_flip(),
    ensures
        tile_candidates(s, t).contains(tp),
{
    let tp1 = TilePlay { tile: t, direction: Direction::Left };
    let tp2 = TilePlay { tile: t, direction: Direction::Right };
    let tp3 = TilePlay { tile: t.spec_flip(), direction: Direction::Left };
    let tp4 = TilePlay { tile: t.spec_flip(), direction: Direction::Right };
    let a = if placement_ok(s, tp1) {
        seq![tp1]
    } else {
        Seq::<TilePlay>::empty()
    };
    let b = if placement_ok(s, tp2) {
        seq![tp2]
    } else {
        Seq::<TilePlay>::empty()
    };
    let c = if placement_ok(s, tp3) {
        seq![tp3]
    } else {
        Seq::<TilePlay>::empty()
    };
    let d = if placement_ok(s, tp4) {
        seq![tp4]
    } else {
        Seq::<TilePlay>::empty()
    };
    let cds = tile_candidates(s, t);
    assert(cds == a + b + c + d);
    if tp == tp1 {
        assert(cds[0] == tp);
    } else if tp == tp2 {
        assert(cds[a.len() as int] == tp);
    } else if tp == tp3 {
        assert(cds[(a.len() + b.len()) as int] == tp);
    } else {
        assert(tp == tp4);
        assert(cds[(a.len() + b.len() + c.len()) as int] == tp);
    }
}

/// Every enumerated play is legal and uses a tile of the hand.
pub proof fn lemma_legal_plays_sound(s: Seq<Tile>, hand: Seq<Tile>)
    ensures
        forall|k: int|
            0 <= k < legal_plays_spec(s, hand).len() ==> placement_ok(
                s,
                #[trigger] legal_plays_spec(s, hand)[k],
            ) && from_hand(hand, legal_plays_spec(s, hand)[k]),
    decreases hand.len(),
{
    if hand.len() > 0 {
        lemma_legal_plays_sound(s, hand.drop_last());
        let pre = legal_plays_spec(s, hand.drop_last());
        let cds = tile_candidates(s, hand.last());
        assert forall|k: int| 0 <= k < legal_plays_spec(s, hand).len() implies placement_ok(
            s,
            #[trigger] legal_plays_spec(s, hand)[k],
        ) && from_hand(hand, legal_plays_spec(s, hand)[k]) by {
            if k < pre.len() {
                assert(legal_plays_spec(s, hand)[k] == pre[k]);
                let tp = pre[k];
                assert(from_hand(hand.drop_last(), tp));
                let i = choose|i: int|
                    0 <= i < hand.drop_last().len() && (hand.drop_last()[i] == tp.tile
                        || hand.drop_last()[i] == tp.tile.spec_flip());
                assert(hand[i] == hand.drop_last()[i]);
            } else {
                let tp = cds[k - pre.len()];
                assert(legal_plays_spec(s, hand)[k] == tp);
                let j = hand.len() - 1;
                assert(hand[j] == tp.tile || hand[j] == tp.tile.spec_flip());
            }
        }
    }
}

/// Every legal play using a tile of the hand is enumerated.
pub proof fn lemma_legal_plays_complete(s: Seq<Tile>, hand: Seq<Tile>, tp: TilePlay)
    requires
        placement_ok(s, tp),
        from_hand(hand, tp),
    ensures
        legal_plays_spec(s, hand).contains(tp),
    decreases hand.len(),
{
    let i = choose|i: int|
        0 <= i < hand.len() && (hand[i] == tp.tile || hand[i] == tp.tile.spec_flip());
    let pre = legal_plays_spec(s, hand.drop_last());
    let cds = tile_candidates(s, hand.last());
    if i == hand.len() - 1 {
        lemma_candidates_complete(s, hand.last(), tp);
        assert(cds.contains(tp));
        let k = choose|k: int| 0 <= k < cds.len() && cds[k] == tp;
        assert(legal_plays_spec(s, hand)[pre.len() + k] == tp);
    } else {
        assert(hand.drop_last()[i] == hand[i]);
        lemma_legal_plays_complete(s, hand.drop_last(), tp);
        let k = choose|k: int| 0 <= k < pre.len() && pre[k] == tp;
        assert(legal_plays_spec(s, hand)[k] == tp);
    }
}

/// No legal play exists exactly when no tile of the hand is playable.
pub proof fn lemma_no_plays_iff_unplayable(s: Seq<Tile>, hand: Seq<Tile>)
    ensures
        legal_plays_spec(s, hand).len() == 0 <==> (forall|i: int|
            0 <= i < hand.len() ==> !spec_playable(s, #[trigger] hand[i])),
    decreases hand.len(),
{
    if hand.len() > 0 {
        lemma_no_plays_iff_unplayable(s, hand.drop_last());
        lemma_candidates_iff_playable(s, hand.last());
        assert(forall|i: int| 0 <= i < hand.len() - 1 ==> hand.drop_last()[i] == #[trigger] hand[i]);
        if legal_plays_spec(s, hand).len() == 0 {
            assert(legal_plays_spec(s, hand.drop_last()).len() == 0);
        } else {
            if legal_plays_spec(s, hand.drop_last()).len() > 0 {
                assert(!spec_playable(s, hand[hand.len() - 1]) ==> exists|i: int|
                    0 <= i < hand.len() - 1 && spec_playable(s, #[trigger] hand.drop_last()[i]));
            }
        }
    }
}

/// The last play with maximal pip sum, as an iterator maximum returns it.
pub open spec fn pick_max_last(l: Seq<TilePlay>) -> TilePlay
    decreases l.len(),
{
    if l.len() <= 1 {
        l[0]
    } else {
        let m = pick_max_last(l.drop_last());
        if l.last().tile.spec_score() >= m.tile.spec_score() {
            l.last()
        } else {
            m
        }
    }
}

/// The first play with minimal pip sum, as an iterator minimum returns it.
pub open spec fn pick_min_first(l: Seq<TilePlay>) -> TilePlay
    decreases l.len(),
{
    if l.len() <= 1 {
        l[0]
    } else {
        let m = pick_min_first(l.drop_last());
        if l.last().tile.spec_score() < m.tile.spec_score() {
            l.last()
        } else {
            m
        }
    }
}

/// The greedy pick is one of the plays, and none scores higher.
pub proof fn lemma_pick_max_last(l: Seq<TilePlay>)
    requires
        l.len() > 0,
    ensures
        l.contains(pick_max_last(l)),
        forall|k: int|
            0 <= k < l.len() ==> (#[trigger] l[k]).tile.spec_score()
                <= pick_max_last(l).tile.spec_score(),
    decreases l.len(),
{
    if l.len() > 1 {
        lemma_pick_max_last(l.drop_last());
        let m = pick_max_last(l.drop_last());
        let j = choose|j: int| 0 <= j < l.drop_last().len() && l.drop_last()[j] == m;
        assert(l[j] == m);
        assert(forall|k: int| 0 <= k < l.len() - 1 ==> #[trigger] l[k] == l.drop_last()[k]);
    }
}

/// The conservative pick is one of the plays, and none scores lower.
pub proof fn lemma_pick_min_first(l: Seq<TilePlay>)
    requires
        l.len() > 0,
    ensures
        l.contains(pick_min_first(l)),
        forall|k: int|
            0 <= k < l.len() ==> (#[trigger] l[k]).tile.spec_score()
                >= pick_min_first(l).tile.spec_score(),
    decreases l.len(),
{
    if l.len() > 1 {
        lemma_pick_min_first(l.drop_last());
        let m = pick_min_first(l.drop_last());
        let j = choose|j: int| 0 <= j < l.drop_last().len() && l.drop_last()[j] == m;
        assert(l[j] == m);
        assert(forall|k: int| 0 <= k < l.len() - 1 ==> #[trigger] l[k] == l.drop_last()[k]);
    }
}

/// An interchangeable, deterministic playing policy. `Random` takes the first
/// legal play found (the probe order stands in for an arbitrary choice),
/// `Greedy` discards the highest pip sum, `Conservative` the lowest.
#[derive(Debug, Clone, Copy, PartialEq, Eq, Structural)]
pub enum Strategy {
    Random,
    Greedy,
    Conservative,
}

/// What a strategy picks from the enumerated legal plays: `None` exactly when
/// there are none.
pub open spec fn spec_choice(strat: Strategy, cands: Seq<TilePlay>) -> Option<TilePlay> {
    if cands.len() == 0 {
        None
    } else {
        Some(
            match strat {
                Strategy::Random => cands[0],
                Strategy::Greedy => pick_max_last(cands),
                Strategy::Conservative => pick_min_first(cands),
            },
        )
    }
}

/// Whether an oriented placement is legal against the current layout.
pub fn placement_legal(snake: &Snake, tp: TilePlay) -> (r: bool)
    ensures
        r == placement_ok(snake@, tp),
{
    if snake.is_empty() {
        return true;
    }
    match tp.direction {
        Direction::Left => snake.left() == Some(tp.tile.right),
        Direction::Right => snake.right() == Some(tp.tile.left),
    }
}

/// Enumerate all legal plays of the hand against the layout, in hand order:
/// the list an interactive player chooses from.
pub fn legal_plays(hand: &Hand, snake: &Snake) -> (r: Vec<TilePlay>)
    ensures
        r@ == legal_plays_spec(snake@, hand@),
{
    let mut r: Vec<TilePlay> = Vec::new();
    let mut i: usize = 0;
    proof {
        assert(r@ =~= legal_plays_spec(snake@, hand@.take(0)));
    }
    while i < hand.tiles.len()
        invariant
            i <= hand@.len(),
            r@ == legal_plays_spec(snake@, hand@.take(i as int)),
        decreases hand@.len() - i,
    {
        let t = hand.tiles[i];
        let tp1 = TilePlay { tile: t, direction: Direction::Left };
        let tp2 = TilePlay { tile: t, direction: Direction::Right };
        let tp3 = TilePlay { tile: t.flip(), direction: Direction::Left };
        let tp4 = TilePlay { tile: t.flip(), direction: Direction::Right };
        let ghost before = r@;
        if placement_legal(snake, tp1) {
            r.push(tp1);
        }
        if placement_legal(snake, tp2) {
            r.push(tp2);
        }
        if placement_legal(snake, tp3) {
            r.push(tp3);
        }
        if placement_legal(snake, tp4) {
            r.push(tp4);
        }
        proof {
            assert(r@ =~= before + tile_candidates(snake@, t));
            assert(hand@.take(i + 1).drop_last() =~= hand@.take(i as int));
            assert(hand@.take(i + 1).last() == t);
        }
        i = i + 1;
    }
    proof {
        assert(hand@.take(hand@.len() as int) =~= hand@);
    }
    r
}

impl Strategy {
    /// Pick a play for this hand against this layout, or `None` exactly when
    /// no tile of the hand is playable.
    pub fn choose_play(self, hand: &Hand, snake: &Snake) -> (r: Option<TilePlay>)
        ensures
            r == spec_choice(self, legal_plays_spec(snake@, hand@)),
    {
        let cands = legal_plays(hand, snake);
        if cands.len() == 0 {
            return None;
        }
        match self {
            Strategy::Random => Some(cands[0]),
            Strategy::Greedy => {
                let mut best: TilePlay = cands[0];
                let mut k: usize = 1;
                proof {
                    assert(cands@.take(1).len() == 1);
                    assert(cands@.take(1)[0] == cands@[0]);
                }
                while k < cands.len()
                    invariant
                        1 <= k <= cands@.len(),
                        cands@.len() > 0,
                        best == pick_max_last(cands@.take(k as int)),
                    decreases cands@.len() - k,
                {
                    proof {
                        assert(cands@.take(k + 1).drop_last() =~= cands@.take(k as int));
                        assert(cands@.take(k + 1).last() == cands@[k as int]);
                    }
                    if cands[k].tile.score() >= best.tile.score() {
                        best = cands[k];
                    }
                    k = k + 1;
                }
                proof {
                    assert(cands@.take(cands@.len() as int) =~= cands@);
                }
                Some(best)
            },
            Strategy::Conservative => {
                let mut best: TilePlay = cands[0];
                let mut k: usize = 1;
                proof {
                    assert(cands@.take(1).len() == 1);
                    assert(cands@.take(1)[0] == cands@[0]);
                }
                while k < cands.len()
                    invariant
                        1 <= k <= cands@.len(),
                        cands@.len() > 0,
                        best == pick_min_first(cands@.take(k as int)),
                    decreases cands@.len() - k,
                {
                    proof {
                        assert(cands@.take(k + 1).drop_last() =~= cands@.take(k as int));
                        assert(cands@.take(k + 1).last() == cands@[k as int]);
                    }
                    if cands[k].tile.score() < best.tile.score() {
                        best = cands[k];
                    }
                    k = k + 1;
                }
                proof {
                    assert(cands@.take(cands@.len() as int) =~= cands@);
                }
                Some(best)
            },
        }
    }
}

} // verus!

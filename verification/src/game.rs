use vstd::prelude::*;
use vstd::multiset::Multiset;
use crate::boneyard::{
    Boneyard, dup_free_pool, is_full_pool, lemma_pool_insert_front, lemma_pool_push,
    lemma_pool_remove, pool,
};
use crate::hand::{
    Hand, find_match, has_match, lemma_find_match, lemma_pip_sum_bound, lemma_pip_sum_nonneg,
    pip_sum, tiles_wf,
};
use crate::players::Strategy;
use crate::snake::{Snake, chain_ok, placement_ok, spec_play, spec_playable};
use crate::tile::Tile;
use crate::tile_play::{Direction, TilePlay};

verus! {

/// Which rule set is played: `Block` deals and never draws; `Draw` lets a
/// player without a playable tile draw from the stock until one turns up or
/// the stock is empty.
#[derive(Debug, Clone, Copy, PartialEq, Eq, Structural)]
pub enum GameVariant {
    Block,
    Draw,
}

/// The terminal classification of a game. `Win(p, margin)` names the winning
/// player index and the margin: the loser's remaining pip sum minus the
/// winner's. Both termination paths use that one convention, so an emptied
/// hand wins by exactly the opponent's remaining pips.
#[derive(Debug, Clone, Copy, PartialEq, Eq, Structural)]
pub enum GameState {
    Draw,
    Win(u8, u32),
    InProgress,
}

/// The mathematical state of a game: what the contracts speak of.
#[verifier::ext_equal]
pub struct GameV {
    pub snake: Seq<Tile>,
    pub hand0: Seq<Tile>,
    pub hand1: Seq<Tile>,
    pub boneyard: Seq<Tile>,
    pub variant: GameVariant,
    pub strat0: Strategy,
    pub strat1: Strategy,
    pub current: int,
    pub blocked: int,
    pub outcome: GameState,
}

impl GameV {
    pub open spec fn hand(self, i: int) -> Seq<Tile> {
        if i == 0 {
            self.hand0
        } else {
            self.hand1
        }
    }

    pub open spec fn strat(self, i: int) -> Strategy {
        if i == 0 {
            self.strat0
        } else {
            self.strat1
        }
    }

    /// Every tile in play, counted once per occurrence in canonical
    /// orientation: the stock, both hands and the layout together.
    pub open spec fn pool_all(self) -> Multiset<Tile> {
        pool(self.boneyard).add(pool(self.hand0)).add(pool(self.hand1)).add(pool(self.snake))
    }

    /// How many tiles are held outside the layout, plus the remaining
    /// blocking allowance: strictly decreasing across turns that stay in
    /// progress, so a game ends within a bounded number of turns.
    pub open spec fn measure(self) -> int {
        3 * (self.boneyard.len() + self.hand0.len() + self.hand1.len()) + 2 - self.blocked
    }

    /// The game invariant. The layout is a valid chain; all tiles are
    /// well formed; no domino occurs twice anywhere (the closed-set
    /// invariant: for a dealt game the combined pool stays the full
    /// double-six set); a hand can never grow past 21 tiles; the bookkeeping
    /// fields are in range.
    pub open spec fn wf(self) -> bool {
        &&& chain_ok(self.snake)
        &&& tiles_wf(self.snake)
        &&& tiles_wf(self.hand0)
        &&& tiles_wf(self.hand1)
        &&& tiles_wf(self.boneyard)
        &&& dup_free_pool(self.pool_all())
        &&& self.snake.len() + self.hand0.len() + self.hand1.len() + self.boneyard.len() <= 28
        &&& self.hand0.len() + self.boneyard.len() <= 21
        &&& self.hand1.len() + self.boneyard.len() <= 21
        &&& 0 <= self.current < 2
        &&& 0 <= self.blocked <= 2
        &&& (self.outcome is InProgress ==> self.blocked < 2)
    }

    /// This state with player `i`'s hand replaced.
    pub open spec fn with_hand(self, i: int, h: Seq<Tile>) -> GameV {
        if i == 0 {
            GameV { hand0: h, ..self }
        } else {
            GameV { hand1: h, ..self }
        }
    }
}

/// One turn attempt applied to a game state: the exact successor state. A
/// `Some` choice is played on the layout, leaves the current hand, and resets
/// the blocking streak; emptying the hand wins at once with the opponent's
/// pip sum as margin. A `None` choice blocks; a second consecutive block ends
/// the game, lower remaining pip sum winning by the difference, ties drawing.
/// A finished game is left unchanged.
pub open spec fn spec_play_tile(v: GameV, choice: Option<TilePlay>) -> GameV {
    if !(v.outcome is InProgress) {
        v
    } else {
        match choice {
            Some(tp) => {
                let c = v.current;
                let h2 = v.hand(c).remove(find_match(v.hand(c), tp.tile));
                let v1 = (GameV { snake: spec_play(v.snake, tp), blocked: 0, ..v }).with_hand(
                    c,
                    h2,
                );
                if h2.len() == 0 {
                    GameV {
                        outcome: GameState::Win(c as u8, pip_sum(v.hand(1 - c)) as u32),
                        ..v1
                    }
                } else {
                    GameV { current: 1 - c, ..v1 }
                }
            },
            None => {
                if v.blocked + 1 == 2 {
                    let sc = pip_sum(v.hand(v.current));
                    let so = pip_sum(v.hand(1 - v.current));
                    let outcome = if so < sc {
                        GameState::Win((1 - v.current) as u8, (sc - so) as u32)
                    } else if sc < so {
                        GameState::Win(v.current as u8, (so - sc) as u32)
                    } else {
                        GameState::Draw
                    };
                    GameV { blocked: 2, outcome, ..v }
                } else {
                    GameV { blocked: v.blocked + 1, current: 1 - v.current, ..v }
                }
            },
        }
    }
}

/// The draw phase of a turn: while the game is in progress in the draw
/// variant and the current player holds nothing playable, tiles move from
/// the top of the stock into that hand, until a playable tile arrives or the
/// stock runs out. Every other state is left unchanged.
pub open spec fn spec_draw_phase(v: GameV) -> GameV
    decreases v.boneyard.len(),
{
    if v.outcome is InProgress && v.variant == GameVariant::Draw && v.boneyard.len() > 0 && (
    forall|i: int|
        0 <= i < v.hand(v.current).len() ==> !spec_playable(
            v.snake,
            #[trigger] v.hand(v.current)[i],
        )) {
        let drawn = (GameV { boneyard: v.boneyard.drop_last(), ..v }).with_hand(
            v.current,
            v.hand(v.current).push(v.boneyard.last()),
        );
        spec_draw_phase(drawn)
    } else {
        v
    }
}

/// One whole turn as the engine drives it: the draw phase, then the current
/// player's strategy picks from the legal plays, then the pick is applied.
pub open spec fn spec_turn(v: GameV) -> GameV {
    if !(v.outcome is InProgress) {
        v
    } else {
        let w = spec_draw_phase(v);
        spec_play_tile(
            w,
            crate::players::spec_choice(
                w.strat(w.current),
                crate::players::legal_plays_spec(w.snake, w.hand(w.current)),
            ),
        )
    }
}

/// A two-player game: the layout, both hands, the stock, the two policies
/// and the turn bookkeeping.
pub struct Game {
    pub snake: Snake,
    pub hand0: Hand,
    pub hand1: Hand,
    pub boneyard: Boneyard,
    pub variant: GameVariant,
    pub strat0: Strategy,
    pub strat1: Strategy,
    pub current_player: u8,
    pub blocked_count: u8,
    pub outcome: GameState,
}

impl View for Game {
    type V = GameV;

    open spec fn view(&self) -> GameV {
        GameV {
            snake: self.snake@,
            hand0: self.hand0@,
            hand1: self.hand1@,
            boneyard: self.boneyard@,
            variant: self.variant,
            strat0: self.strat0,
            strat1: self.strat1,
            current: self.current_player as int,
            blocked: self.blocked_count as int,
            outcome: self.outcome,
        }
    }
}

impl Game {
    /// Deal a fresh game: shuffle the full double-six set, give 7 tiles to
    /// each player, and leave the remaining 14 in the stock. The combined
    /// pool is the complete set: the closed-set invariant starts here.
    pub fn new(
        strat0: Strategy,
        strat1: Strategy,
        variant: GameVariant,
        rng: &mut rand::rngs::StdRng,
    ) -> (g: Game)
        ensures
            g@.wf(),
            is_full_pool(g@.pool_all()),
            g@.outcome is InProgress,
            g@.current == 0,
            g@.blocked == 0,
            g@.snake.len() == 0,
            g@.hand0.len() == 7,
            g@.hand1.len() == 7,
            g@.boneyard.len() == 14,
            g@.variant == variant,
            g@.strat0 == strat0,
            g@.strat1 == strat1,
    {
        let stock = Boneyard::new();
        let mut stock = stock.shuffle(rng);
        let ghost shuffled = stock@;
        let t0 = stock.draw_n(7);
        let t1 = stock.draw_n(7);
        let mut hand0 = Hand::new();
        hand0.add_multiple(t0);
        let mut hand1 = Hand::new();
        hand1.add_multiple(t1);
        let snake = Snake::new();
        let g = Game {
            snake,
            hand0,
            hand1,
            boneyard: stock,
            variant,
            strat0,
            strat1,
            current_player: 0,
            blocked_count: 0,
            outcome: GameState::InProgress,
        };
        proof {
            assert(shuffled.take(21).take(14) =~= shuffled.take(14));
            assert(g@.boneyard =~= shuffled.take(14));
            assert(g@.hand0 =~= shuffled.skip(21));
            assert(g@.hand1 =~= shuffled.take(21).skip(14));
            crate::boneyard::lemma_pool_append(shuffled.take(21), shuffled.skip(21));
            assert(shuffled.take(21) + shuffled.skip(21) =~= shuffled);
            crate::boneyard::lemma_pool_append(shuffled.take(14), shuffled.take(21).skip(14));
            assert(shuffled.take(14) + shuffled.take(21).skip(14) =~= shuffled.take(21));
            assert(pool(Seq::<Tile>::empty()) == Multiset::<Tile>::empty());
            assert(g@.pool_all() =~= pool(shuffled));
            assert forall|i: int| 0 <= i < g@.hand0.len() implies (#[trigger] g@.hand0[i]).wf() by {
                assert(g@.hand0[i] == shuffled[i + 21]);
            }
            assert forall|i: int| 0 <= i < g@.hand1.len() implies (#[trigger] g@.hand1[i]).wf() by {
                assert(g@.hand1[i] == shuffled[i + 14]);
            }
            assert forall|i: int|
                0 <= i < g@.boneyard.len() implies (#[trigger] g@.boneyard[i]).wf() by {
                assert(g@.boneyard[i] == shuffled[i]);
            }
            assert(dup_free_pool(g@.pool_all())) by {
                assert(forall|t: Tile| #[trigger]
                    g@.pool_all().count(t) == (if t.is_canonical() {
                        1nat
                    } else {
                        0nat
                    }));
            }
        }
        g
    }

    /// Whether the current player's hand holds a playable tile.
    fn current_hand_playable(&self) -> (r: bool)
        ensures
            r == exists|i: int|
                0 <= i < self@.hand(self@.current).len() && spec_playable(
                    self@.snake,
                    #[trigger] self@.hand(self@.current)[i],
                ),
    {
        let left = self.snake.left();
        let right = self.snake.right();
        let r = if self.current_player == 0 {
            crate::debug_utils::is_hand_playable(self.hand0.tiles.as_slice(), left, right)
        } else {
            crate::debug_utils::is_hand_playable(self.hand1.tiles.as_slice(), left, right)
        };
        proof {
            let h = self@.hand(self@.current);
            assert forall|i: int| 0 <= i < h.len() implies crate::debug_utils::matches_ends(
                #[trigger] h[i],
                left,
                right,
            ) == spec_playable(self@.snake, h[i]) by {
                crate::debug_utils::lemma_matches_ends_is_playable(self@.snake, h[i]);
            }
        }
        r
    }

    /// The draw phase of the current turn: in the draw variant, while the
    /// current player holds nothing playable and the stock is not empty,
    /// move the top stock tile into that hand. Everything else about the
    /// game, including the combined pool and the turn measure, is unchanged.
    pub fn draw_until_playable(&mut self)
        requires
            old(self)@.wf(),
        ensures
            final(self)@ == spec_draw_phase(old(self)@),
            final(self)@.wf(),
            final(self)@.pool_all() == old(self)@.pool_all(),
            final(self)@.measure() == old(self)@.measure(),
            final(self)@.outcome == old(self)@.outcome,
            final(self)@.current == old(self)@.current,
            final(self)@.blocked == old(self)@.blocked,
            final(self)@.variant == old(self)@.variant,
            final(self)@.snake == old(self)@.snake,
            final(self)@.strat0 == old(self)@.strat0,
            final(self)@.strat1 == old(self)@.strat1,
            final(self)@.hand(1 - old(self)@.current) == old(self)@.hand(1 - old(self)@.current),
            !(final(self)@.outcome is InProgress && final(self)@.variant == GameVariant::Draw
                && final(self)@.boneyard.len() > 0 && (forall|i: int|
                0 <= i < final(self)@.hand(final(self)@.current).len() ==> !spec_playable(
                    final(self)@.snake,
                    #[trigger] final(self)@.hand(final(self)@.current)[i],
                ))),
    {
        loop
            invariant
                self@.wf(),
                spec_draw_phase(self@) == spec_draw_phase(old(self)@),
                self@.pool_all() == old(self)@.pool_all(),
                self@.measure() == old(self)@.measure(),
                self@.outcome == old(self)@.outcome,
                self@.current == old(self)@.current,
                self@.blocked == old(self)@.blocked,
                self@.variant == old(self)@.variant,
                self@.snake == old(self)@.snake,
                self@.strat0 == old(self)@.strat0,
                self@.strat1 == old(self)@.strat1,
                self@.hand(1 - old(self)@.current) == old(self)@.hand(1 - old(self)@.current),
            ensures
                self@.wf(),
                spec_draw_phase(self@) == spec_draw_phase(old(self)@),
                self@.pool_all() == old(self)@.pool_all(),
                self@.measure() == old(self)@.measure(),
                self@.outcome == old(self)@.outcome,
                self@.current == old(self)@.current,
                self@.blocked == old(self)@.blocked,
                self@.variant == old(self)@.variant,
                self@.snake == old(self)@.snake,
                self@.strat0 == old(self)@.strat0,
                self@.strat1 == old(self)@.strat1,
                self@.hand(1 - old(self)@.current) == old(self)@.hand(1 - old(self)@.current),
                !(self@.outcome is InProgress && self@.variant == GameVariant::Draw
                    && self@.boneyard.len() > 0 && (forall|i: int|
                    0 <= i < self@.hand(self@.current).len() ==> !spec_playable(
                        self@.snake,
                        #[trigger] self@.hand(self@.current)[i],
                    ))),
            decreases self@.boneyard.len(),
        {
            match self.outcome {
                GameState::InProgress => {},
                _ => {
                    break ;
                },
            }
            match self.variant {
                GameVariant::Draw => {},
                GameVariant::Block => {
                    break ;
                },
            }
            if self.boneyard.is_empty() {
                break ;
            }
            if self.current_hand_playable() {
                break ;
            }
            let ghost v = self@;
            let t = self.boneyard.draw();
            proof {
                assert(t.wf());
                if v.current == 0 {
                    crate::boneyard::lemma_pool_push(v.hand0, t);
                } else {
                    crate::boneyard::lemma_pool_push(v.hand1, t);
                }
            }
            if self.current_player == 0 {
                self.hand0.add(t);
            } else {
                self.hand1.add(t);
            }
            proof {
                let v2 = (GameV { boneyard: v.boneyard.drop_last(), ..v }).with_hand(
                    v.current,
                    v.hand(v.current).push(v.boneyard.last()),
                );
                assert(self@ =~= v2);
                assert(pool(v.boneyard) == pool(v.boneyard.drop_last()).insert(
                    v.boneyard.last().canon(),
                ));
                assert(self@.pool_all() =~= v.pool_all());
                let h2 = v.hand(v.current).push(t);
                assert forall|j: int| 0 <= j < h2.len() implies (#[trigger] h2[j]).wf() by {
                    if j < h2.len() - 1 {
                        assert(h2[j] == v.hand(v.current)[j]);
                    }
                }
                assert(spec_draw_phase(v) == spec_draw_phase(v2));
            }
        }
        proof {
            assert(spec_draw_phase(self@) == self@);
        }
    }

    /// Run one whole turn: draw if needed, ask the current player's strategy
    /// for a play, and apply it. The successor state is the exact function
    /// `spec_turn` of the old state: with fixed strategies, replaying a game
    /// from the same position gives identical turns. A finished game is
    /// returned unchanged, idempotently.
    pub fn play(&mut self) -> (r: GameState)
        requires
            old(self)@.wf(),
        ensures
            final(self)@ == spec_turn(old(self)@),
            r == final(self)@.outcome,
            final(self)@.wf(),
            final(self)@.pool_all() == old(self)@.pool_all(),
            old(self)@.outcome is InProgress ==> final(self)@.measure() < old(self)@.measure(),
            old(self)@.outcome is InProgress ==> (r matches GameState::Win(w, m) ==> w < 2 && m
                <= 252),
    {
        match self.outcome {
            GameState::InProgress => {},
            s => {
                return s;
            },
        }
        self.draw_until_playable();
        let ghost w = self@;
        let choice = if self.current_player == 0 {
            self.strat0.choose_play(&self.hand0, &self.snake)
        } else {
            self.strat1.choose_play(&self.hand1, &self.snake)
        };
        proof {
            let cands = crate::players::legal_plays_spec(w.snake, w.hand(w.current));
            crate::players::lemma_legal_plays_sound(w.snake, w.hand(w.current));
            crate::players::lemma_no_plays_iff_unplayable(w.snake, w.hand(w.current));
            match choice {
                Some(tp) => {
                    assert(cands.len() > 0);
                    match w.strat(w.current) {
                        Strategy::Random => {
                            assert(cands.contains(tp)) by {
                                assert(cands[0] == tp);
                            }
                        },
                        Strategy::Greedy => {
                            crate::players::lemma_pick_max_last(cands);
                        },
                        Strategy::Conservative => {
                            crate::players::lemma_pick_min_first(cands);
                        },
                    }
                    let k = choose|k: int| 0 <= k < cands.len() && cands[k] == tp;
                    assert(placement_ok(w.snake, tp) && crate::players::from_hand(
                        w.hand(w.current),
                        tp,
                    ));
                    let i = choose|i: int|
                        0 <= i < w.hand(w.current).len() && (w.hand(w.current)[i] == tp.tile || w.hand(
                            w.current,
                        )[i] == tp.tile.spec_flip());
                    assert(has_match(w.hand(w.current), tp.tile));
                },
                None => {
                    assert(cands.len() == 0);
                    assert(forall|i: int|
                        0 <= i < w.hand(w.current).len() ==> !spec_playable(
                            w.snake,
                            #[trigger] w.hand(w.current)[i],
                        ));
                    assert(w.outcome is InProgress);
                    assert(w.variant == GameVariant::Block || w.boneyard.len() == 0);
                },
            }
        }
        let r = self.play_tile(choice);
        r
    }
}

impl Game {
    /// Apply one chosen turn to the game. The choice must be honest: a played
    /// tile must be held by the current player and fit the chosen end, and a
    /// pass is only allowed when nothing is playable (and, in the draw
    /// variant, the stock is empty). A finished game is returned unchanged,
    /// idempotently.
    #[verifier::rlimit(100)]
    pub fn play_tile(&mut self, choice: Option<TilePlay>) -> (r: GameState)
        requires
            old(self)@.wf(),
            old(self)@.outcome is InProgress ==> match choice {
                Some(tp) => placement_ok(old(self)@.snake, tp) && has_match(
                    old(self)@.hand(old(self)@.current),
                    tp.tile,
                ),
                None => (forall|i: int|
                    0 <= i < old(self)@.hand(old(self)@.current).len() ==> !spec_playable(
                        old(self)@.snake,
                        #[trigger] old(self)@.hand(old(self)@.current)[i],
                    )) && (old(self)@.variant == GameVariant::Block || old(
                    self,
                )@.boneyard.len() == 0),
            },
        ensures
            final(self)@ == spec_play_tile(old(self)@, choice),
            r == final(self)@.outcome,
            final(self)@.wf(),
            final(self)@.pool_all() == old(self)@.pool_all(),
            old(self)@.outcome is InProgress ==> final(self)@.measure() < old(self)@.measure(),
            old(self)@.outcome is InProgress ==> (r matches GameState::Win(w, m) ==> w < 2 && m
                <= 252),
            old(self)@.outcome is InProgress && choice is Some && final(self)@.hand(
                old(self)@.current,
            ).len() == 0 ==> r == GameState::Win(
                old(self)@.current as u8,
                pip_sum(old(self)@.hand(1 - old(self)@.current)) as u32,
            ),
    {
        let ghost v = self@;
        proof {
            lemma_pip_sum_nonneg(v.hand0);
            lemma_pip_sum_nonneg(v.hand1);
            lemma_pip_sum_bound(v.hand0);
            lemma_pip_sum_bound(v.hand1);
        }
        match self.outcome {
            GameState::InProgress => {},
            s => {
                return s;
            },
        }
        match choice {
            Some(tp) => {
                proof {
                    let h = v.hand(v.current);
                    lemma_find_match(h, tp.tile);
                    let i = find_match(h, tp.tile);
                    assert(h[i].wf());
                    lemma_pool_remove(h, i);
                    assert(h[i].canon() == tp.tile.canon());
                    assert forall|j: int| 0 <= j < h.remove(i).len() implies (#[trigger] h.remove(
                        i,
                    )[j]).wf() by {
                        if j < i {
                            assert(h.remove(i)[j] == h[j]);
                        } else {
                            assert(h.remove(i)[j] == h[j + 1]);
                        }
                    }
                    match tp.direction {
                        Direction::Left => {
                            if v.snake.len() > 0 {
                                lemma_pool_insert_front(v.snake, tp.tile);
                            }
                        },
                        Direction::Right => {
                            if v.snake.len() > 0 {
                                lemma_pool_push(v.snake, tp.tile);
                            }
                        },
                    }
                    if v.snake.len() == 0 {
                        assert(spec_play(v.snake, tp) =~= Seq::empty().push(tp.tile));
                        lemma_pool_push(Seq::empty(), tp.tile);
                        assert(pool(Seq::<Tile>::empty()) == Multiset::<Tile>::empty());
                    }
                    assert forall|j: int|
                        0 <= j < spec_play(v.snake, tp).len() implies (#[trigger] spec_play(
                        v.snake,
                        tp,
                    )[j]).wf() by {
                        let s2 = spec_play(v.snake, tp);
                        if v.snake.len() == 0 {
                        } else {
                            match tp.direction {
                                Direction::Left => {
                                    v.snake.insert_ensures(0, tp.tile);
                                    if j > 0 {
                                        assert(s2[(j - 1) + 1] == v.snake[j - 1]);
                                    }
                                },
                                Direction::Right => {
                                    if j < v.snake.len() {
                                        assert(s2[j] == v.snake[j]);
                                    }
                                },
                            }
                        }
                    }
                }
                self.snake.play(tp);
                let _t = if self.current_player == 0 {
                    self.hand0.remove_matching(tp.tile)
                } else {
                    self.hand1.remove_matching(tp.tile)
                };
                self.blocked_count = 0;
                let emptied = if self.current_player == 0 {
                    self.hand0.is_empty()
                } else {
                    self.hand1.is_empty()
                };
                proof {
                    assert(self@.pool_all() =~= v.pool_all());
                }
                if emptied {
                    let margin = if self.current_player == 0 {
                        self.hand1.score()
                    } else {
                        self.hand0.score()
                    };
                    self.outcome = GameState::Win(self.current_player, margin);
                } else {
                    self.current_player = 1 - self.current_player;
                }
                proof {
                    assert(self@ =~= spec_play_tile(v, choice));
                }
            },
            None => {
                self.blocked_count = self.blocked_count + 1;
                if self.blocked_count == 2 {
                    let sc = if self.current_player == 0 {
                        self.hand0.score()
                    } else {
                        self.hand1.score()
                    };
                    let so = if self.current_player == 0 {
                        self.hand1.score()
                    } else {
                        self.hand0.score()
                    };
                    self.outcome = if so < sc {
                        GameState::Win(1 - self.current_player, sc - so)
                    } else if sc < so {
                        GameState::Win(self.current_player, so - sc)
                    } else {
                        GameState::Draw
                    };
                } else {
                    self.current_player = 1 - self.current_player;
                }
                proof {
                    assert(self@ =~= spec_play_tile(v, choice));
                }
            },
        }
        self.outcome
    }
}

/// A game cannot run forever: in a well-formed state the turn measure lies
/// between 0 and 86, and every turn taken while the game is in progress
/// strictly decreases it, so at most 86 turn attempts can happen.
pub proof fn lemma_turns_bounded(v: GameV)
    requires
        v.wf(),
    ensures
        0 <= v.measure() <= 86,
{
}

/// The state after `n` whole turns, each driven by the stored strategies.
pub open spec fn spec_run(v: GameV, n: nat) -> GameV
    decreases n,
{
    if n == 0 {
        v
    } else {
        spec_run(spec_turn(v), (n - 1) as nat)
    }
}

/// Deterministic replay: the engine is a pure function of its state, so two
/// games that ever agree, run with the same strategies, agree after any
/// number of further turns. `Game::play` pins each executed turn to
/// `spec_turn`, which ties every run to this statement.
pub proof fn lemma_deterministic_replay(v1: GameV, v2: GameV, n: nat)
    requires
        v1 == v2,
    ensures
        spec_run(v1, n) == spec_run(v2, n),
{
}

} // verus!

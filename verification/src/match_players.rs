use vstd::prelude::*;
use crate::game::{Game, GameState, GameVariant};
use crate::match_results::MatchResults;
use crate::players::Strategy;

verus! {

/// Run `n` independent block-variant games between the two strategies, each
/// on a fresh deal from the given generator, and fold the outcomes: every
/// game is counted exactly once, and accumulated margins stay within the
/// per-game bound.
pub fn match_players_helper(p0: Strategy, p1: Strategy, n: usize, rng: &mut rand::rngs::StdRng) -> (r:
    MatchResults)
    requires
        252 * n <= u32::MAX,
    ensures
        r.wins_0 + r.wins_1 + r.draws == n,
        r.scores_0 <= 252 * r.wins_0,
        r.scores_1 <= 252 * r.wins_1,
{
    let mut results = MatchResults::default();
    let mut g: usize = 0;
    while g < n
        invariant
            g <= n,
            252 * n <= u32::MAX,
            results.wins_0 + results.wins_1 + results.draws == g,
            results.scores_0 <= 252 * results.wins_0,
            results.scores_1 <= 252 * results.wins_1,
        decreases n - g,
    {
        let mut game = Game::new(p0, p1, GameVariant::Block, rng);
        let mut state = GameState::InProgress;
        proof {
            crate::game::lemma_turns_bounded(game@);
        }
        loop
            invariant
                game@.wf(),
                state == game@.outcome,
                state matches GameState::Win(w, m) ==> w < 2 && m <= 252,
            ensures
                game@.wf(),
                !(state is InProgress),
                state matches GameState::Win(w, m) ==> w < 2 && m <= 252,
            decreases game@.measure(),
        {
            match state {
                GameState::InProgress => {},
                _ => {
                    break ;
                },
            }
            proof {
                crate::game::lemma_turns_bounded(game@);
            }
            let ghost before = game@;
            state = game.play();
            proof {
                if before.outcome is InProgress {
                } else {
                    assert(state == before.outcome);
                }
            }
        }
        results.record(state);
        g = g + 1;
    }
    results
}

} // verus!

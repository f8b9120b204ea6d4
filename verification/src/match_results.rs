use vstd::prelude::*;
use crate::game::GameState;

verus! {

/// The aggregate of a series of games: win counts, accumulated winning
/// margins and draws.
#[derive(Debug, Clone, Copy, PartialEq, Eq, Structural)]
pub struct MatchResults {
    pub wins_0: usize,
    pub scores_0: u32,
    pub wins_1: usize,
    pub scores_1: u32,
    pub draws: usize,
}

impl Default for MatchResults {
    fn default() -> (r: MatchResults)
        ensures
            r.wins_0 == 0 && r.scores_0 == 0 && r.wins_1 == 0 && r.scores_1 == 0 && r.draws == 0,
    {
        MatchResults { wins_0: 0, scores_0: 0, wins_1: 0, scores_1: 0, draws: 0 }
    }
}

impl MatchResults {
    /// Fold one finished game into the tally: a win adds to that player's
    /// count and accumulates the margin, a draw adds to the draws. An
    /// in-progress state is no outcome and is excluded by contract.
    pub fn record(&mut self, state: GameState)
        requires
            old(self).wins_0 + old(self).wins_1 + old(self).draws < usize::MAX,
            !(state is InProgress),
            state matches GameState::Win(w, m) ==> w < 2 && old(self).scores_0 + m <= u32::MAX
                && old(self).scores_1 + m <= u32::MAX,
        ensures
            (match state {
                GameState::Win(0u8, m) => *final(self) == (MatchResults {
                    wins_0: (old(self).wins_0 + 1) as usize,
                    scores_0: (old(self).scores_0 + m) as u32,
                    ..*old(self)
                }),
                GameState::Win(_, m) => *final(self) == (MatchResults {
                    wins_1: (old(self).wins_1 + 1) as usize,
                    scores_1: (old(self).scores_1 + m) as u32,
                    ..*old(self)
                }),
                GameState::Draw => *final(self) == (MatchResults {
                    draws: (old(self).draws + 1) as usize,
                    ..*old(self)
                }),
                GameState::InProgress => false,
            }),
    {
        match state {
            GameState::Win(0u8, score) => {
                self.wins_0 = self.wins_0 + 1;
                self.scores_0 = self.scores_0 + score;
            },
            GameState::Win(_, score) => {
                self.wins_1 = self.wins_1 + 1;
                self.scores_1 = self.scores_1 + score;
            },
            GameState::Draw => {
                self.draws = self.draws + 1;
            },
            GameState::InProgress => {
                proof {
                    assert(false);
                }
            },
        }
    }

    /// How many games these results cover: every game ends in a win for one
    /// side or a draw.
    pub fn games(&self) -> (n: usize)
        requires
            self.wins_0 + self.wins_1 + self.draws <= usize::MAX,
        ensures
            n == self.wins_0 + self.wins_1 + self.draws,
    {
        self.wins_0 + self.wins_1 + self.draws
    }
}

} // verus!

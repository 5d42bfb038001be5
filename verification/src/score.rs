//! Win/loss/draw tallies and the per-pair match counters.
//!
//! A `Status` describes one ordered (home, away) pair from the home
//! side's point of view: the accumulated score, how many games are still
//! owed (`queued`) and how many are in flight (`running`).

use crate::game::Outcome;
use vstd::prelude::*;

verus! {

/// Win/loss/draw tally for an ordered (home, away) pair, seen from home.
#[derive(Clone, Copy, PartialEq, Eq, Structural, Debug)]
pub struct Score {
    pub win: u32,
    pub loss: u32,
    pub draw: u32,
}

/// Score plus pending and in-flight match counters for one ordered pair.
#[derive(Clone, Copy, PartialEq, Eq, Structural, Debug)]
pub struct Status {
    pub score: Score,
    pub queued: u32,
    pub running: u32,
}

impl Score {
    /// The empty tally.
    pub fn new() -> (r: Score)
        ensures
            r == (Score { win: 0, loss: 0, draw: 0 }),
    {
        Score { win: 0, loss: 0, draw: 0 }
    }

    /// The tally of a single finished game, seen from the red (home) side.
    pub fn from_outcome(outcome: Outcome) -> (r: Score)
        ensures
            r == spec_from_outcome(outcome),
    {
        match outcome {
            Outcome::RedWon => Score::won(),
            Outcome::BlackWon => Score::lost(),
            Outcome::Stalemate | Outcome::MoveRule => Score { win: 0, loss: 0, draw: 1 },
        }
    }

    /// A single win.
    pub fn won() -> (r: Score)
        ensures
            r == (Score { win: 1, loss: 0, draw: 0 }),
    {
        Score { win: 1, loss: 0, draw: 0 }
    }

    /// A single loss.
    pub fn lost() -> (r: Score)
        ensures
            r == (Score { win: 0, loss: 1, draw: 0 }),
    {
        Score { win: 0, loss: 1, draw: 0 }
    }

    /// Add another tally into this one, field by field.
    pub fn merge(&mut self, score: &Score)
        requires
            old(self).win + score.win <= u32::MAX,
            old(self).loss + score.loss <= u32::MAX,
            old(self).draw + score.draw <= u32::MAX,
        ensures
            final(self).win == old(self).win + score.win,
            final(self).loss == old(self).loss + score.loss,
            final(self).draw == old(self).draw + score.draw,
    {
        self.win = self.win + score.win;
        self.loss = self.loss + score.loss;
        self.draw = self.draw + score.draw;
    }

    /// Flip to the opponent's point of view: wins and losses swap, draws stay.
    pub fn negate(&mut self)
        ensures
            final(self).win == old(self).loss,
            final(self).loss == old(self).win,
            final(self).draw == old(self).draw,
    {
        let win = self.win;
        self.win = self.loss;
        self.loss = win;
    }
}

impl Default for Score {
    fn default() -> (r: Score)
        ensures
            r == (Score { win: 0, loss: 0, draw: 0 }),
    {
        Score::new()
    }
}

impl Status {
    /// The empty status: no games played, owed or running.
    pub fn new() -> (r: Status)
        ensures
            r == spec_status_zero(),
    {
        Status { score: Score { win: 0, loss: 0, draw: 0 }, queued: 0, running: 0 }
    }

    /// Add another status into this one, field by field.
    pub fn merge(&mut self, status: &Status)
        requires
            old(self).score.win + status.score.win <= u32::MAX,
            old(self).score.loss + status.score.loss <= u32::MAX,
            old(self).score.draw + status.score.draw <= u32::MAX,
            old(self).queued + status.queued <= u32::MAX,
            old(self).running + status.running <= u32::MAX,
        ensures
            final(self).score.win == old(self).score.win + status.score.win,
            final(self).score.loss == old(self).score.loss + status.score.loss,
            final(self).score.draw == old(self).score.draw + status.score.draw,
            final(self).queued == old(self).queued + status.queued,
            final(self).running == old(self).running + status.running,
    {
        self.score.merge(&status.score);
        self.queued = self.queued + status.queued;
        self.running = self.running + status.running;
    }
}

impl Default for Status {
    fn default() -> (r: Status)
        ensures
            r == spec_status_zero(),
    {
        Status::new()
    }
}

/// The score a finished game adds on the home (red) side's tally.
pub open spec fn spec_from_outcome(outcome: Outcome) -> Score {
    match outcome {
        Outcome::RedWon => Score { win: 1, loss: 0, draw: 0 },
        Outcome::BlackWon => Score { win: 0, loss: 1, draw: 0 },
        Outcome::Stalemate | Outcome::MoveRule => Score { win: 0, loss: 0, draw: 1 },
    }
}

/// Two tallies added field by field.
pub open spec fn spec_merge_score(a: Score, b: Score) -> Score {
    Score {
        win: (a.win + b.win) as u32,
        loss: (a.loss + b.loss) as u32,
        draw: (a.draw + b.draw) as u32,
    }
}

/// The all-zero status.
pub open spec fn spec_status_zero() -> Status {
    Status { score: Score { win: 0, loss: 0, draw: 0 }, queued: 0, running: 0 }
}

} // verus!

//! The game driver: the bilateral protocol state machine that runs one
//! game between a home (red) and an away (black) instance.
//!
//! The driver is a pure transition function. Its caller owns the two
//! sockets and the rules oracle: it performs the emitted actions (send
//! the opening `game` message, prompt the mover, broadcast an update)
//! and feeds back what happened (a message arrived, a side dropped, the
//! oracle's verdict on the position). Every transition of the table is
//! stated in [`spec_step`]; [`DriverState::step`] returns exactly that.

use crate::game::Outcome;
use crate::location::Move;
use crate::PROMPT_TIME_MS;
use vstd::prelude::*;

verus! {

/// Where a running game stands.
#[derive(Clone, Copy, PartialEq, Eq, Structural, Debug)]
pub enum DriverState {
    /// The opening `game` message went out; waiting for `ready` from
    /// the sides that have not sent it yet.
    WaitReady { home_ready: bool, away_ready: bool },
    /// It is the given side's turn; the rules oracle must be consulted
    /// for the position's outcome before prompting.
    Turn { red: bool },
    /// The given side was prompted; waiting for its move.
    AwaitMove { red: bool },
    /// The game is over. A side survives unless it disconnected.
    Terminal { outcome: Outcome, home_survives: bool, away_survives: bool },
}

/// What the driver's caller observed.
#[derive(Clone, Copy, PartialEq, Eq, Structural, Debug)]
pub enum DriverEvent {
    /// A side sent `ready`.
    Ready { from_home: bool },
    /// A side sent `play`; `legal` is the rules oracle's verdict on the
    /// move in the current position.
    Play { from_home: bool, mv: Move, legal: bool },
    /// A side sent some other message.
    Other { from_home: bool },
    /// A side's stream returned end of input or an error.
    Disconnect { from_home: bool },
    /// The rules oracle's verdict on the current position, consulted on
    /// entering [`DriverState::Turn`].
    Position { outcome: Option<Outcome> },
}

/// What the driver asks its caller to do.
#[derive(Clone, Copy, PartialEq, Eq, Structural, Debug)]
pub enum DriverAction {
    /// Send `game <fen> <redTurn>` to both sides.
    SendGameToBoth,
    /// Send `prompt <time>` to the side to move.
    SendPrompt { red: bool, time: u32 },
    /// Send `update <move>` to both sides.
    BroadcastUpdate { mv: Move },
}

impl DriverState {
    /// Begin a game: announce it to both sides and wait for `ready`.
    pub fn start() -> (r: (DriverState, Vec<DriverAction>))
        ensures
            r.0 == (DriverState::WaitReady { home_ready: false, away_ready: false }),
            r.1@ =~= seq![DriverAction::SendGameToBoth],
    {
        let mut actions: Vec<DriverAction> = Vec::new();
        actions.push(DriverAction::SendGameToBoth);
        (DriverState::WaitReady { home_ready: false, away_ready: false }, actions)
    }

    /// True once the game has ended.
    pub open spec fn is_terminal(self) -> bool {
        self is Terminal
    }

    /// Advance the game by one observed event.
    pub fn step(self, event: DriverEvent) -> (r: (DriverState, Vec<DriverAction>))
        ensures
            r.0 == spec_step(self, event).0,
            r.1@ =~= spec_step(self, event).1,
    {
        match (self, event) {
            // A disconnect ends the game at once: the other side wins.
            (DriverState::WaitReady { .. }, DriverEvent::Disconnect { from_home })
            | (DriverState::Turn { .. }, DriverEvent::Disconnect { from_home })
            | (DriverState::AwaitMove { .. }, DriverEvent::Disconnect { from_home }) => (
                DriverState::Terminal {
                    outcome: if from_home {
                        Outcome::BlackWon
                    } else {
                        Outcome::RedWon
                    },
                    home_survives: !from_home,
                    away_survives: from_home,
                },
                Vec::new(),
            ),
            (DriverState::WaitReady { home_ready, away_ready }, DriverEvent::Ready { from_home }) => {
                let home_ready = home_ready || from_home;
                let away_ready = away_ready || !from_home;
                if home_ready && away_ready {
                    (DriverState::Turn { red: true }, Vec::new())
                } else {
                    (DriverState::WaitReady { home_ready, away_ready }, Vec::new())
                }
            },
            (DriverState::Turn { red }, DriverEvent::Position { outcome }) => {
                match outcome {
                    Some(outcome) => (
                        DriverState::Terminal { outcome, home_survives: true, away_survives: true },
                        Vec::new(),
                    ),
                    None => {
                        let mut actions: Vec<DriverAction> = Vec::new();
                        actions.push(DriverAction::SendPrompt { red, time: PROMPT_TIME_MS });
                        (DriverState::AwaitMove { red }, actions)
                    },
                }
            },
            (DriverState::AwaitMove { red }, DriverEvent::Play { from_home, mv, legal }) => {
                if from_home == red {
                    if legal {
                        let mut actions: Vec<DriverAction> = Vec::new();
                        actions.push(DriverAction::BroadcastUpdate { mv });
                        (DriverState::Turn { red: !red }, actions)
                    } else {
                        let mut actions: Vec<DriverAction> = Vec::new();
                        actions.push(DriverAction::SendPrompt { red, time: PROMPT_TIME_MS });
                        (DriverState::AwaitMove { red }, actions)
                    }
                } else {
                    // A move from the side not prompted is discarded.
                    (self, Vec::new())
                }
            },
            // Everything else is discarded: unexpected kinds while
            // waiting, and any event after the game has ended.
            _ => (self, Vec::new()),
        }
    }
}

/// The game ends because one side dropped; the other side wins and is
/// the only survivor.
pub open spec fn terminal_disconnect(from_home: bool) -> DriverState {
    DriverState::Terminal {
        outcome: if from_home {
            Outcome::BlackWon
        } else {
            Outcome::RedWon
        },
        home_survives: !from_home,
        away_survives: from_home,
    }
}

/// The driver's transition table: next state and the actions to perform.
pub open spec fn spec_step(state: DriverState, event: DriverEvent) -> (
    DriverState,
    Seq<DriverAction>,
) {
    match (state, event) {
        (DriverState::WaitReady { .. }, DriverEvent::Disconnect { from_home })
        | (DriverState::Turn { .. }, DriverEvent::Disconnect { from_home })
        | (DriverState::AwaitMove { .. }, DriverEvent::Disconnect { from_home }) => (
            terminal_disconnect(from_home),
            Seq::empty(),
        ),
        (DriverState::WaitReady { home_ready, away_ready }, DriverEvent::Ready { from_home }) => {
            let home_ready = home_ready || from_home;
            let away_ready = away_ready || !from_home;
            if home_ready && away_ready {
                (DriverState::Turn { red: true }, Seq::empty())
            } else {
                (DriverState::WaitReady { home_ready, away_ready }, Seq::empty())
            }
        },
        (DriverState::Turn { red }, DriverEvent::Position { outcome }) => {
            match outcome {
                Some(outcome) => (
                    DriverState::Terminal { outcome, home_survives: true, away_survives: true },
                    Seq::empty(),
                ),
                None => (
                    DriverState::AwaitMove { red },
                    seq![DriverAction::SendPrompt { red, time: PROMPT_TIME_MS }],
                ),
            }
        },
        (DriverState::AwaitMove { red }, DriverEvent::Play { from_home, mv, legal }) => {
            if from_home == red {
                if legal {
                    (DriverState::Turn { red: !red }, seq![DriverAction::BroadcastUpdate { mv }])
                } else {
                    (
                        DriverState::AwaitMove { red },
                        seq![DriverAction::SendPrompt { red, time: PROMPT_TIME_MS }],
                    )
                }
            } else {
                (state, Seq::empty())
            }
        },
        _ => (state, Seq::empty()),
    }
}

/// A finished game stays finished: no event changes a terminal state or
/// makes the driver act again.
pub proof fn lemma_terminal_absorbing(state: DriverState, event: DriverEvent)
    requires
        state.is_terminal(),
    ensures
        spec_step(state, event).0 == state,
        spec_step(state, event).1 == Seq::<DriverAction>::empty(),
{
}

/// A game ends only by an outcome or by a disconnect, and a disconnect
/// ends it at once: whatever state the game is in, the other side wins
/// and is the only survivor.
pub proof fn lemma_disconnect_ends_game(state: DriverState, from_home: bool)
    requires
        !state.is_terminal(),
    ensures
        spec_step(state, DriverEvent::Disconnect { from_home }).0 == terminal_disconnect(
            from_home,
        ),
        spec_step(state, DriverEvent::Disconnect { from_home }).1
            == Seq::<DriverAction>::empty(),
{
}

} // verus!

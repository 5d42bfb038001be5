use xiangqi_arbiter::driver::{DriverAction, DriverEvent, DriverState};
use xiangqi_arbiter::game::Outcome;
use xiangqi_arbiter::location::{Location, Move};
use xiangqi_arbiter::score::{Score, Status};
use xiangqi_arbiter::PROMPT_TIME_MS;

fn mv(fx: i8, fy: i8, tx: i8, ty: i8) -> Move {
    Move {
        from: Location { x: fx, y: fy },
        to: Location { x: tx, y: ty },
    }
}

#[test]
fn driver_plays_a_game_to_checkmate() {
    let (state, actions) = DriverState::start();
    assert_eq!(actions, [DriverAction::SendGameToBoth]);
    assert_eq!(
        state,
        DriverState::WaitReady {
            home_ready: false,
            away_ready: false
        }
    );
    // Both sides acknowledge; red is prompted first.
    let (state, actions) = state.step(DriverEvent::Ready { from_home: true });
    assert!(actions.is_empty());
    let (state, actions) = state.step(DriverEvent::Ready { from_home: false });
    assert!(actions.is_empty());
    assert_eq!(state, DriverState::Turn { red: true });
    let (state, actions) = state.step(DriverEvent::Position { outcome: None });
    assert_eq!(
        actions,
        [DriverAction::SendPrompt {
            red: true,
            time: PROMPT_TIME_MS
        }]
    );
    assert_eq!(state, DriverState::AwaitMove { red: true });
    // A legal move is broadcast to both sides and the turn passes.
    let red_move = mv(7, 2, 4, 2);
    let (state, actions) = state.step(DriverEvent::Play {
        from_home: true,
        mv: red_move,
        legal: true,
    });
    assert_eq!(actions, [DriverAction::BroadcastUpdate { mv: red_move }]);
    assert_eq!(state, DriverState::Turn { red: false });
    let (state, actions) = state.step(DriverEvent::Position { outcome: None });
    assert_eq!(
        actions,
        [DriverAction::SendPrompt {
            red: false,
            time: PROMPT_TIME_MS
        }]
    );
    let black_move = mv(1, 9, 2, 7);
    let (state, actions) = state.step(DriverEvent::Play {
        from_home: false,
        mv: black_move,
        legal: true,
    });
    assert_eq!(actions, [DriverAction::BroadcastUpdate { mv: black_move }]);
    // The oracle reports checkmate; the driver ends silently with both
    // sides surviving.
    let (state, actions) = state.step(DriverEvent::Position {
        outcome: Some(Outcome::RedWon),
    });
    assert!(actions.is_empty());
    assert_eq!(
        state,
        DriverState::Terminal {
            outcome: Outcome::RedWon,
            home_survives: true,
            away_survives: true
        }
    );
}

#[test]
fn driver_reprompts_after_illegal_move() {
    let state = DriverState::AwaitMove { red: true };
    let (state, actions) = state.step(DriverEvent::Play {
        from_home: true,
        mv: mv(0, 0, 0, 0),
        legal: false,
    });
    // No update goes out; the same side is prompted again.
    assert_eq!(
        actions,
        [DriverAction::SendPrompt {
            red: true,
            time: PROMPT_TIME_MS
        }]
    );
    assert_eq!(state, DriverState::AwaitMove { red: true });
}

#[test]
fn driver_ends_game_when_mover_disconnects() {
    let state = DriverState::AwaitMove { red: true };
    let (state, actions) = state.step(DriverEvent::Disconnect { from_home: true });
    assert!(actions.is_empty());
    assert_eq!(
        state,
        DriverState::Terminal {
            outcome: Outcome::BlackWon,
            home_survives: false,
            away_survives: true
        }
    );
}

#[test]
fn driver_awards_mover_when_other_side_disconnects() {
    let state = DriverState::Turn { red: true };
    let (state, actions) = state.step(DriverEvent::Disconnect { from_home: false });
    assert!(actions.is_empty());
    assert_eq!(
        state,
        DriverState::Terminal {
            outcome: Outcome::RedWon,
            home_survives: true,
            away_survives: false
        }
    );
}

#[test]
fn driver_discards_unexpected_messages() {
    let state = DriverState::WaitReady {
        home_ready: true,
        away_ready: false,
    };
    let (state, actions) = state.step(DriverEvent::Other { from_home: false });
    assert!(actions.is_empty());
    assert_eq!(
        state,
        DriverState::WaitReady {
            home_ready: true,
            away_ready: false
        }
    );
    // A move from the side not prompted is discarded too.
    let state = DriverState::AwaitMove { red: true };
    let (state, actions) = state.step(DriverEvent::Play {
        from_home: false,
        mv: mv(0, 0, 0, 1),
        legal: true,
    });
    assert!(actions.is_empty());
    assert_eq!(state, DriverState::AwaitMove { red: true });
}

#[test]
fn driver_handles_disconnect_during_handshake() {
    let state = DriverState::WaitReady {
        home_ready: false,
        away_ready: false,
    };
    let (state, actions) = state.step(DriverEvent::Disconnect { from_home: false });
    assert!(actions.is_empty());
    assert_eq!(
        state,
        DriverState::Terminal {
            outcome: Outcome::RedWon,
            home_survives: true,
            away_survives: false
        }
    );
}

#[test]
fn score_arithmetic() {
    assert_eq!(
        Score::from_outcome(Outcome::RedWon),
        Score {
            win: 1,
            loss: 0,
            draw: 0
        }
    );
    assert_eq!(Score::from_outcome(Outcome::BlackWon), Score::lost());
    assert_eq!(
        Score::from_outcome(Outcome::Stalemate),
        Score {
            win: 0,
            loss: 0,
            draw: 1
        }
    );
    assert_eq!(
        Score::from_outcome(Outcome::MoveRule),
        Score {
            win: 0,
            loss: 0,
            draw: 1
        }
    );
    let mut total = Score::new();
    total.merge(&Score::won());
    total.merge(&Score::won());
    total.merge(&Score::lost());
    assert_eq!(
        total,
        Score {
            win: 2,
            loss: 1,
            draw: 0
        }
    );
    total.negate();
    assert_eq!(
        total,
        Score {
            win: 1,
            loss: 2,
            draw: 0
        }
    );
    let mut status = Status::new();
    status.merge(&Status {
        score: Score::won(),
        queued: 3,
        running: 1,
    });
    assert_eq!(status.score.win, 1);
    assert_eq!(status.queued, 3);
    assert_eq!(status.running, 1);
}

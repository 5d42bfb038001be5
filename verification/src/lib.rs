//! A network tournament arbiter for Chinese Chess (Xiangqi).
//!
//! The library holds the verified core of the arbiter: per-pair score
//! keeping, the wire protocol codec, line framing, the tournament
//! registry with its greedy matcher, and the game-driver state machine.
//! The socket handling around it is ordinary Rust and lives outside the
//! library; the chess rules oracle is consulted by the driver's caller,
//! which feeds its verdicts in as events.

pub mod board;
pub mod display_format;
pub mod driver;
pub mod framer;
pub mod game;
pub mod location;
pub mod piece;
pub mod protocol;
pub mod score;
pub mod text;
pub mod tournament;

use vstd::prelude::*;

verus! {

/// Milliseconds announced in every move prompt; advisory only.
pub const PROMPT_TIME_MS: u32 = 1000;

} // verus!

//! Terminal outcomes of a game.
//!
//! The rules oracle that detects these outcomes is not part of the
//! library; the driver's caller consults it and feeds the verdict in.

use crate::display_format::DisplayFormat;
use vstd::prelude::*;
use vstd::string::StringExecFns;

verus! {

/// How a game ended.
#[derive(Clone, Copy, PartialEq, Eq, Structural, Debug)]
pub enum Outcome {
    /// Red (the home side) checkmated black.
    RedWon,
    /// Black (the away side) checkmated red.
    BlackWon,
    /// Draw: the side to move has no legal move and is not in check.
    Stalemate,
    /// Draw: 100 half-moves without a capture or a pawn advance.
    MoveRule,
}

/// The text an outcome is announced with, in the chosen piece alphabet.
pub open spec fn spec_outcome_text(outcome: Outcome, chinese: bool) -> Seq<char> {
    match outcome {
        Outcome::RedWon => (if chinese {
            "\u{5e25}"@
        } else {
            "K"@
        }) + " won by checkmating black"@,
        Outcome::BlackWon => (if chinese {
            "\u{5c07}"@
        } else {
            "k"@
        }) + " won by checkmating red"@,
        Outcome::Stalemate => "draw by stalemate"@,
        Outcome::MoveRule => "draw by 50-move rule"@,
    }
}

impl Outcome {
    /// Announce the outcome: the winning king's symbol and how it won,
    /// or which rule drew the game.
    pub fn display(&self, format: DisplayFormat) -> (r: String)
        ensures
            r@ == spec_outcome_text(*self, format.chinese),
    {
        match *self {
            Outcome::RedWon => {
                let mut text = if format.chinese {
                    String::from_str("\u{5e25}")
                } else {
                    String::from_str("K")
                };
                text.append(" won by checkmating black");
                text
            },
            Outcome::BlackWon => {
                let mut text = if format.chinese {
                    String::from_str("\u{5c07}")
                } else {
                    String::from_str("k")
                };
                text.append(" won by checkmating red");
                text
            },
            Outcome::Stalemate => String::from_str("draw by stalemate"),
            Outcome::MoveRule => String::from_str("draw by 50-move rule"),
        }
    }
}

} // verus!

//! Xiangqi pieces and their FEN letters.
//!
//! An uppercase letter is a red (white) piece, a lowercase letter a
//! black one: `k`/`K` king, `a`/`A` advisor, `e`/`E` elephant, `h`/`H`
//! horse, `r`/`R` rook, `c`/`C` cannon, `p`/`P` pawn.

use vstd::prelude::*;

verus! {

/// The seven kinds of Xiangqi piece.
#[derive(Clone, Copy, PartialEq, Eq, Structural, Debug)]
pub enum PieceType {
    King,
    Advisor,
    Elephant,
    Horse,
    Rook,
    Cannon,
    Pawn,
}

/// A piece of one side. White is the red side.
#[derive(Clone, Copy, PartialEq, Eq, Structural, Debug)]
pub enum Piece {
    White(PieceType),
    Black(PieceType),
}

impl Piece {
    /// The piece a FEN letter denotes, if any.
    pub fn from_char(value: char) -> (r: Option<Piece>)
        ensures
            r == spec_piece_from_char(value),
    {
        match value {
            'K' => Some(Piece::White(PieceType::King)),
            'A' => Some(Piece::White(PieceType::Advisor)),
            'E' => Some(Piece::White(PieceType::Elephant)),
            'H' => Some(Piece::White(PieceType::Horse)),
            'R' => Some(Piece::White(PieceType::Rook)),
            'C' => Some(Piece::White(PieceType::Cannon)),
            'P' => Some(Piece::White(PieceType::Pawn)),
            'k' => Some(Piece::Black(PieceType::King)),
            'a' => Some(Piece::Black(PieceType::Advisor)),
            'e' => Some(Piece::Black(PieceType::Elephant)),
            'h' => Some(Piece::Black(PieceType::Horse)),
            'r' => Some(Piece::Black(PieceType::Rook)),
            'c' => Some(Piece::Black(PieceType::Cannon)),
            'p' => Some(Piece::Black(PieceType::Pawn)),
            _ => None,
        }
    }

    /// The FEN letter of the piece.
    pub fn to_char(&self) -> (r: char)
        ensures
            r == spec_piece_to_char(*self),
            spec_piece_from_char(r) == Some(*self),
    {
        match *self {
            Piece::White(PieceType::King) => 'K',
            Piece::White(PieceType::Advisor) => 'A',
            Piece::White(PieceType::Elephant) => 'E',
            Piece::White(PieceType::Horse) => 'H',
            Piece::White(PieceType::Rook) => 'R',
            Piece::White(PieceType::Cannon) => 'C',
            Piece::White(PieceType::Pawn) => 'P',
            Piece::Black(PieceType::King) => 'k',
            Piece::Black(PieceType::Advisor) => 'a',
            Piece::Black(PieceType::Elephant) => 'e',
            Piece::Black(PieceType::Horse) => 'h',
            Piece::Black(PieceType::Rook) => 'r',
            Piece::Black(PieceType::Cannon) => 'c',
            Piece::Black(PieceType::Pawn) => 'p',
        }
    }

    /// True for red (white) pieces.
    pub fn is_red(&self) -> (r: bool)
        ensures
            r == self is White,
    {
        match *self {
            Piece::White(_) => true,
            Piece::Black(_) => false,
        }
    }
}

/// The piece a FEN letter denotes, if any.
pub open spec fn spec_piece_from_char(value: char) -> Option<Piece> {
    match value {
        'K' => Some(Piece::White(PieceType::King)),
        'A' => Some(Piece::White(PieceType::Advisor)),
        'E' => Some(Piece::White(PieceType::Elephant)),
        'H' => Some(Piece::White(PieceType::Horse)),
        'R' => Some(Piece::White(PieceType::Rook)),
        'C' => Some(Piece::White(PieceType::Cannon)),
        'P' => Some(Piece::White(PieceType::Pawn)),
        'k' => Some(Piece::Black(PieceType::King)),
        'a' => Some(Piece::Black(PieceType::Advisor)),
        'e' => Some(Piece::Black(PieceType::Elephant)),
        'h' => Some(Piece::Black(PieceType::Horse)),
        'r' => Some(Piece::Black(PieceType::Rook)),
        'c' => Some(Piece::Black(PieceType::Cannon)),
        'p' => Some(Piece::Black(PieceType::Pawn)),
        _ => None,
    }
}

/// The FEN letter of a piece.
pub open spec fn spec_piece_to_char(piece: Piece) -> char {
    match piece {
        Piece::White(PieceType::King) => 'K',
        Piece::White(PieceType::Advisor) => 'A',
        Piece::White(PieceType::Elephant) => 'E',
        Piece::White(PieceType::Horse) => 'H',
        Piece::White(PieceType::Rook) => 'R',
        Piece::White(PieceType::Cannon) => 'C',
        Piece::White(PieceType::Pawn) => 'P',
        Piece::Black(PieceType::King) => 'k',
        Piece::Black(PieceType::Advisor) => 'a',
        Piece::Black(PieceType::Elephant) => 'e',
        Piece::Black(PieceType::Horse) => 'h',
        Piece::Black(PieceType::Rook) => 'r',
        Piece::Black(PieceType::Cannon) => 'c',
        Piece::Black(PieceType::Pawn) => 'p',
    }
}

} // verus!

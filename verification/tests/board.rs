use xiangqi_arbiter::board::Board;
use xiangqi_arbiter::display_format::DisplayFormat;
use xiangqi_arbiter::game::Outcome;
use xiangqi_arbiter::location::Location;
use xiangqi_arbiter::piece::{Piece, PieceType};

const OPENING_FEN: &str = "rheakaehr/9/1c5c1/p1p1p1p1p/9/9/P1P1P1P1P/1C5C1/9/RHEAKAEHR";

#[test]
fn opening_fen_text() {
    assert_eq!(Board::opening().fen(), OPENING_FEN);
}

#[test]
fn opening_pieces() {
    let board = Board::opening();
    let at = |x: i8, y: i8| board.piece_at(Location { x, y });
    assert_eq!(at(4, 0), Some(Piece::White(PieceType::King)));
    assert_eq!(at(4, 9), Some(Piece::Black(PieceType::King)));
    assert_eq!(at(0, 0), Some(Piece::White(PieceType::Rook)));
    assert_eq!(at(1, 2), Some(Piece::White(PieceType::Cannon)));
    assert_eq!(at(0, 3), Some(Piece::White(PieceType::Pawn)));
    assert_eq!(at(7, 7), Some(Piece::Black(PieceType::Cannon)));
    assert_eq!(at(4, 4), None);
}

#[test]
fn fen_round_trip_opening() {
    let board = Board::from_fen(OPENING_FEN).unwrap();
    assert_eq!(board.fen(), OPENING_FEN);
}

#[test]
fn fen_ignores_tail_fields() {
    let board = Board::from_fen("rheakaehr/9/1c5c1/p1p1p1p1p/9/9/P1P1P1P1P/1C5C1/9/RHEAKAEHR w - - 0 1")
        .unwrap();
    assert_eq!(board.fen(), OPENING_FEN);
}

#[test]
fn fen_round_trip_sparse_position() {
    let fen = "4k4/9/9/9/9/9/9/9/9/3K1r3";
    let board = Board::from_fen(fen).unwrap();
    assert_eq!(board.fen(), fen);
    assert_eq!(
        board.piece_at(Location { x: 3, y: 0 }),
        Some(Piece::White(PieceType::King))
    );
    assert_eq!(
        board.piece_at(Location { x: 5, y: 0 }),
        Some(Piece::Black(PieceType::Rook))
    );
}

#[test]
fn fen_rejects_bad_text() {
    assert!(Board::from_fen("x").is_none());
    // Too many cells in one rank.
    assert!(Board::from_fen("rrrrrrrrrr").is_none());
    assert!(Board::from_fen("9r").is_none());
    // Too many ranks.
    assert!(Board::from_fen("9/9/9/9/9/9/9/9/9/9/9").is_none());
    // A zero digit is not a run.
    assert!(Board::from_fen("0").is_none());
}

#[test]
fn set_and_get_pieces() {
    let mut board = Board::new();
    let square = Location { x: 4, y: 5 };
    board.set_piece(square, Some(Piece::Black(PieceType::Horse)));
    assert_eq!(board.piece_at(square), Some(Piece::Black(PieceType::Horse)));
    board.set_piece(square, None);
    assert_eq!(board.piece_at(square), None);
}

#[test]
fn piece_letters() {
    assert_eq!(Piece::from_char('K'), Some(Piece::White(PieceType::King)));
    assert_eq!(Piece::from_char('p'), Some(Piece::Black(PieceType::Pawn)));
    assert_eq!(Piece::from_char('x'), None);
    assert_eq!(Piece::White(PieceType::Cannon).to_char(), 'C');
    assert_eq!(Piece::Black(PieceType::Advisor).to_char(), 'a');
    assert!(Piece::White(PieceType::Horse).is_red());
    assert!(!Piece::Black(PieceType::Horse).is_red());
}

#[test]
fn outcome_text() {
    let plain = DisplayFormat {
        chinese: false,
        effects: false,
        concise: true,
    };
    assert_eq!(Outcome::RedWon.display(plain), "K won by checkmating black");
    assert_eq!(Outcome::BlackWon.display(plain), "k won by checkmating red");
    assert_eq!(Outcome::Stalemate.display(plain), "draw by stalemate");
    assert_eq!(Outcome::MoveRule.display(plain), "draw by 50-move rule");
    assert_eq!(
        Outcome::RedWon.display(DisplayFormat::string()),
        "\u{5e25} won by checkmating black"
    );
}

#[test]
fn display_format_defaults() {
    let pretty = DisplayFormat::pretty();
    assert!(pretty.chinese && pretty.effects && !pretty.concise);
    let string = DisplayFormat::string();
    assert!(string.chinese && !string.effects && string.concise);
    assert!(pretty.with_concise(true).concise);
}

//! The board as a grid of cells, and the FEN codec for positions.
//!
//! Cells are row-major, index `x + y * 9`, rank 0 at red's base. The
//! FEN board field writes ranks from the top (`y = 9`) down, separated
//! by `/`; digits 1 to 9 count empty cells, uppercase letters are red
//! pieces and lowercase black ones. Decoding stops at the first space,
//! so a full FEN line is accepted and everything after the board field
//! is ignored.

use crate::location::{Location, BOARD_WIDTH};
use crate::piece::{spec_piece_from_char, spec_piece_to_char, Piece, PieceType};
use crate::text::{digit_char, digit_val, is_digit, push_char};
use vstd::prelude::*;
use vstd::string::StrSliceExecFns;

verus! {

/// Number of cells on the board.
pub const BOARD_CELLS: usize = 90;

/// The playing field: what piece, if any, stands on each cell.
pub struct Board {
    pieces: Vec<Option<Piece>>,
}

impl View for Board {
    type V = Seq<Option<Piece>>;

    closed spec fn view(&self) -> Seq<Option<Piece>> {
        self.pieces@
    }
}

/// A board holds exactly one cell per square.
pub open spec fn board_wf(b: Seq<Option<Piece>>) -> bool {
    b.len() == BOARD_CELLS
}

/// The piece of the opening position on the cell at `(x, y)`.
pub open spec fn spec_opening_cell(x: int, y: int) -> Option<Piece> {
    if y == 0 {
        Some(Piece::White(back_rank_kind(x)))
    } else if y == 9 {
        Some(Piece::Black(back_rank_kind(x)))
    } else if y == 2 && (x == 1 || x == 7) {
        Some(Piece::White(PieceType::Cannon))
    } else if y == 7 && (x == 1 || x == 7) {
        Some(Piece::Black(PieceType::Cannon))
    } else if y == 3 && x % 2 == 0 {
        Some(Piece::White(PieceType::Pawn))
    } else if y == 6 && x % 2 == 0 {
        Some(Piece::Black(PieceType::Pawn))
    } else {
        None
    }
}

/// The kind standing on file `x` of a back rank.
pub open spec fn back_rank_kind(x: int) -> PieceType {
    if x == 0 || x == 8 {
        PieceType::Rook
    } else if x == 1 || x == 7 {
        PieceType::Horse
    } else if x == 2 || x == 6 {
        PieceType::Elephant
    } else if x == 3 || x == 5 {
        PieceType::Advisor
    } else {
        PieceType::King
    }
}

/// The opening position, cell by cell.
pub open spec fn spec_opening() -> Seq<Option<Piece>> {
    Seq::new(BOARD_CELLS as nat, |i: int| spec_opening_cell(i % 9, i / 9))
}

/// Decode the cells of a FEN board field, from the state `(x, y)` on,
/// onto `b`. A space or the end of the text accepts what was read.
pub open spec fn parse_cells(
    s: Seq<char>,
    x: int,
    y: int,
    b: Seq<Option<Piece>>,
) -> Option<Seq<Option<Piece>>>
    decreases s.len(),
{
    if s.len() == 0 || s.first() == ' ' {
        Some(b)
    } else if s.first() == '/' {
        if y > 0 {
            parse_cells(s.drop_first(), 0, y - 1, b)
        } else {
            None
        }
    } else if is_digit(s.first()) && digit_val(s.first()) >= 1 {
        if x + digit_val(s.first()) <= 9 {
            parse_cells(s.drop_first(), x + digit_val(s.first()), y, b)
        } else {
            None
        }
    } else if spec_piece_from_char(s.first()) is Some {
        if x < 9 {
            parse_cells(
                s.drop_first(),
                x + 1,
                y,
                b.update(y * 9 + x, spec_piece_from_char(s.first())),
            )
        } else {
            None
        }
    } else {
        None
    }
}

/// What a FEN board field decodes to, if well formed.
pub open spec fn spec_parse_fen(s: Seq<char>) -> Option<Seq<Option<Piece>>> {
    parse_cells(s, 0, 9, Seq::new(BOARD_CELLS as nat, |i: int| None))
}

/// Encode rank `y` from file `x` on, with `run` empty cells pending.
pub open spec fn fen_rank_from(b: Seq<Option<Piece>>, y: int, x: int, run: int) -> Seq<char>
    decreases 9 - x,
{
    if x >= 9 {
        if run > 0 {
            seq![digit_char(run)]
        } else {
            Seq::empty()
        }
    } else {
        match b[y * 9 + x] {
            Option::None => fen_rank_from(b, y, x + 1, run + 1),
            Option::Some(p) => (if run > 0 {
                seq![digit_char(run)]
            } else {
                Seq::empty()
            }) + seq![spec_piece_to_char(p)] + fen_rank_from(b, y, x + 1, 0),
        }
    }
}

/// Encode the ranks from `y` down to 0, separated by slashes.
pub open spec fn fen_down_from(b: Seq<Option<Piece>>, y: int) -> Seq<char>
    decreases y + 1,
{
    if y < 0 {
        Seq::empty()
    } else {
        fen_rank_from(b, y, 0, 0) + (if y > 0 {
            seq!['/']
        } else {
            Seq::empty()
        }) + fen_down_from(b, y - 1)
    }
}

/// The FEN board field of a position.
pub open spec fn spec_fen(b: Seq<Option<Piece>>) -> Seq<char> {
    fen_down_from(b, 9)
}

impl Board {
    /// The empty board.
    pub fn new() -> (r: Board)
        ensures
            board_wf(r@),
            forall|i: int| 0 <= i < BOARD_CELLS ==> (#[trigger] r@[i]) is None,
    {
        let mut pieces: Vec<Option<Piece>> = Vec::new();
        let mut i: usize = 0;
        while i < BOARD_CELLS
            invariant
                0 <= i <= BOARD_CELLS,
                pieces@.len() == i,
                forall|k: int| 0 <= k < i ==> (#[trigger] pieces@[k]) is None,
            decreases BOARD_CELLS - i,
        {
            pieces.push(None);
            i = i + 1;
        }
        Board { pieces }
    }

    /// The opening position.
    pub fn opening() -> (r: Board)
        ensures
            board_wf(r@),
            r@ =~= spec_opening(),
    {
        let mut pieces: Vec<Option<Piece>> = Vec::new();
        let mut i: usize = 0;
        while i < BOARD_CELLS
            invariant
                0 <= i <= BOARD_CELLS,
                pieces@.len() == i,
                forall|k: int|
                    0 <= k < i ==> (#[trigger] pieces@[k]) == spec_opening_cell(k % 9, k / 9),
            decreases BOARD_CELLS - i,
        {
            pieces.push(opening_cell(i));
            i = i + 1;
        }
        Board { pieces }
    }

    /// The piece standing on a square, if any.
    pub fn piece_at(&self, location: Location) -> (r: Option<Piece>)
        requires
            board_wf(self@),
            location.is_valid(),
        ensures
            r == self@[location.x + location.y * BOARD_WIDTH],
    {
        self.pieces[location.index()]
    }

    /// Put a piece on a square, or clear it.
    pub fn set_piece(&mut self, location: Location, piece: Option<Piece>)
        requires
            board_wf(old(self)@),
            location.is_valid(),
        ensures
            board_wf(final(self)@),
            final(self)@ =~= old(self)@.update(
                location.x + location.y * BOARD_WIDTH,
                piece,
            ),
    {
        self.pieces.set(location.index(), piece);
    }

    /// Decode the board field of a FEN text; everything after the first
    /// space is ignored.
    pub fn from_fen(fen: &str) -> (r: Option<Board>)
        ensures
            match r {
                Some(board) => spec_parse_fen(fen@) == Some(board@) && board_wf(board@),
                None => spec_parse_fen(fen@) is None,
            },
    {
        let len = fen.unicode_len();
        let mut board = Board::new();
        let mut i: usize = 0;
        let mut x: u32 = 0;
        let mut y: u32 = 9;
        proof {
            assert(fen@.skip(0) =~= fen@);
            assert(board@ =~= Seq::new(BOARD_CELLS as nat, |k: int| None::<Piece>));
            assert(Seq::new(BOARD_CELLS as nat, |k: int| None::<Piece>) =~= Seq::new(
                BOARD_CELLS as nat,
                |i: int| None,
            ));
        }
        while i < len
            invariant
                0 <= i <= len,
                len == fen@.len(),
                0 <= x <= 9,
                0 <= y <= 9,
                board_wf(board@),
                spec_parse_fen(fen@) == parse_cells(
                    fen@.skip(i as int),
                    x as int,
                    y as int,
                    board@,
                ),
            decreases len - i,
        {
            let c = fen.get_char(i);
            proof {
                assert(fen@.skip(i as int).first() == c);
                assert(fen@.skip(i as int).drop_first() =~= fen@.skip(i + 1 as int));
            }
            if c == ' ' {
                return Some(board);
            }
            if c == '/' {
                if y == 0 {
                    return None;
                }
                y = y - 1;
                x = 0;
            } else {
                let cv = c as u32;
                if 49 <= cv && cv <= 57 {
                    let d = cv - 48;
                    if x + d > 9 {
                        return None;
                    }
                    x = x + d;
                } else {
                    match Piece::from_char(c) {
                        Some(piece) => {
                            if x >= 9 {
                                return None;
                            }
                            let index = (x + y * 9) as usize;
                            self_set(&mut board, index, Some(piece));
                            x = x + 1;
                        },
                        None => {
                            return None;
                        },
                    }
                }
            }
            i = i + 1;
        }
        proof {
            assert(fen@.skip(len as int) =~= Seq::<char>::empty());
        }
        Some(board)
    }

    /// The FEN board field of this position.
    pub fn fen(&self) -> (r: String)
        requires
            board_wf(self@),
        ensures
            r@ == spec_fen(self@),
    {
        let mut out = String::new();
        let mut yi: u32 = 0;
        while yi < 10
            invariant
                board_wf(self@),
                0 <= yi <= 10,
                spec_fen(self@) =~= out@ + fen_down_from(self@, 9 - yi),
            decreases 10 - yi,
        {
            let y = 9 - yi;
            let mut x: u32 = 0;
            let mut run: u32 = 0;
            while x < 9
                invariant
                    board_wf(self@),
                    0 <= yi <= 9,
                    y == 9 - yi,
                    0 <= run <= x <= 9,
                    spec_fen(self@) =~= out@ + fen_rank_from(self@, y as int, x as int, run as int)
                        + (if y > 0 {
                        seq!['/']
                    } else {
                        Seq::<char>::empty()
                    }) + fen_down_from(self@, y - 1),
                decreases 9 - x,
            {
                let index = (x + y * 9) as usize;
                match self.pieces[index] {
                    Option::None => {
                        run = run + 1;
                    },
                    Option::Some(piece) => {
                        if run > 0 {
                            push_digit(&mut out, run);
                        }
                        push_char(&mut out, piece.to_char());
                        run = 0;
                        proof {
                            assert(spec_fen(self@) =~= out@ + fen_rank_from(
                                self@,
                                y as int,
                                x + 1 as int,
                                0,
                            ) + (if y > 0 {
                                seq!['/']
                            } else {
                                Seq::<char>::empty()
                            }) + fen_down_from(self@, y - 1));
                        }
                    },
                }
                x = x + 1;
            }
            if run > 0 {
                push_digit(&mut out, run);
            }
            if y > 0 {
                push_char(&mut out, '/');
            }
            proof {
                assert(spec_fen(self@) =~= out@ + fen_down_from(self@, y - 1));
            }
            yi = yi + 1;
        }
        proof {
            assert(fen_down_from(self@, -1) =~= Seq::<char>::empty());
            assert(out@ =~= spec_fen(self@));
        }
        out
    }
}

/// The piece of the opening position on the cell with this index.
fn opening_cell(i: usize) -> (r: Option<Piece>)
    requires
        i < BOARD_CELLS,
    ensures
        r == spec_opening_cell(i as int % 9, i as int / 9),
{
    let x = i % 9;
    let y = i / 9;
    if y == 0 {
        Some(Piece::White(back_rank_kind_exec(x)))
    } else if y == 9 {
        Some(Piece::Black(back_rank_kind_exec(x)))
    } else if y == 2 && (x == 1 || x == 7) {
        Some(Piece::White(PieceType::Cannon))
    } else if y == 7 && (x == 1 || x == 7) {
        Some(Piece::Black(PieceType::Cannon))
    } else if y == 3 && x % 2 == 0 {
        Some(Piece::White(PieceType::Pawn))
    } else if y == 6 && x % 2 == 0 {
        Some(Piece::Black(PieceType::Pawn))
    } else {
        None
    }
}

/// The kind standing on file `x` of a back rank.
fn back_rank_kind_exec(x: usize) -> (r: PieceType)
    ensures
        r == back_rank_kind(x as int),
{
    if x == 0 || x == 8 {
        PieceType::Rook
    } else if x == 1 || x == 7 {
        PieceType::Horse
    } else if x == 2 || x == 6 {
        PieceType::Elephant
    } else if x == 3 || x == 5 {
        PieceType::Advisor
    } else {
        PieceType::King
    }
}

/// Write one cell of a board under construction.
fn self_set(board: &mut Board, index: usize, piece: Option<Piece>)
    requires
        board_wf(old(board)@),
        index < BOARD_CELLS,
    ensures
        board_wf(final(board)@),
        final(board)@ =~= old(board)@.update(index as int, piece),
{
    board.pieces.set(index, piece);
}

/// Append a single nonzero digit below ten.
fn push_digit(out: &mut String, d: u32)
    requires
        1 <= d <= 9,
    ensures
        final(out)@ == old(out)@.push(digit_char(d as int)),
{
    let c = match d {
        1 => '1',
        2 => '2',
        3 => '3',
        4 => '4',
        5 => '5',
        6 => '6',
        7 => '7',
        8 => '8',
        _ => '9',
    };
    push_char(out, c);
}

/// What follows rank `y` in a FEN text: a slash and the lower ranks,
/// or nothing after the bottom rank.
pub open spec fn tail_after(b: Seq<Option<Piece>>, y: int) -> Seq<char> {
    if y > 0 {
        seq!['/'] + fen_down_from(b, y - 1)
    } else {
        Seq::empty()
    }
}

/// Decoding what the rank encoder emitted, from the matching parse
/// state, reproduces the board.
proof fn lemma_parse_rank(
    b: Seq<Option<Piece>>,
    cur: Seq<Option<Piece>>,
    y: int,
    x: int,
    run: int,
)
    requires
        board_wf(b),
        cur.len() == BOARD_CELLS,
        0 <= y <= 9,
        0 <= run <= x <= 9,
        forall|yy: int, xx: int|
            0 <= yy <= 9 && 0 <= xx < 9 ==> (#[trigger] cur[yy * 9 + xx]) == (if yy > y || (yy == y
                && xx < x - run) {
                b[yy * 9 + xx]
            } else {
                None
            }),
        forall|xx: int| x - run <= xx < x ==> (#[trigger] b[y * 9 + xx]) is None,
    ensures
        parse_cells(fen_rank_from(b, y, x, run) + tail_after(b, y), x - run, y, cur) == Some(b),
    decreases y, 9 - x,
{
    if x >= 9 {
        let s = fen_rank_from(b, y, x, run) + tail_after(b, y);
        let after_digit = tail_after(b, y);
        if run > 0 {
            assert(s.first() == digit_char(run));
            assert(is_digit(digit_char(run)) && digit_val(digit_char(run)) == run);
            assert(digit_char(run) != ' ' && digit_char(run) != '/');
            assert(s.drop_first() =~= after_digit);
            assert(parse_cells(s, x - run, y, cur) == parse_cells(after_digit, 9, y, cur));
        } else {
            assert(s =~= after_digit);
        }
        // After the whole rank, the parse state is the rank's end.
        if y > 0 {
            assert(after_digit.first() == '/');
            assert(after_digit.drop_first() =~= fen_down_from(b, y - 1));
            assert(parse_cells(after_digit, 9, y, cur) == parse_cells(
                fen_down_from(b, y - 1),
                0,
                y - 1,
                cur,
            ));
            assert(fen_down_from(b, y - 1) =~= fen_rank_from(b, y - 1, 0, 0) + tail_after(
                b,
                y - 1,
            )) by {
                assert(fen_down_from(b, y - 1) == fen_rank_from(b, y - 1, 0, 0) + (if y - 1 > 0 {
                    seq!['/']
                } else {
                    Seq::<char>::empty()
                }) + fen_down_from(b, y - 2));
                if y - 1 <= 0 {
                    assert(fen_down_from(b, y - 2) =~= Seq::<char>::empty());
                }
            }
            assert forall|yy: int, xx: int| 0 <= yy <= 9 && 0 <= xx < 9 implies (#[trigger] cur[yy
                * 9 + xx]) == (if yy > y - 1 || (yy == y - 1 && xx < 0 - 0) {
                b[yy * 9 + xx]
            } else {
                None
            }) by {
                if yy == y && xx >= x - run {
                    assert(b[y * 9 + xx] is None);
                }
            }
            lemma_parse_rank(b, cur, y - 1, 0, 0);
            assert(parse_cells(
                fen_rank_from(b, y - 1, 0, 0) + tail_after(b, y - 1),
                0,
                y - 1,
                cur,
            ) == Some(b));
            assert(parse_cells(fen_down_from(b, y - 1), 0, y - 1, cur) == Some(b));
        } else {
            assert(cur =~= b) by {
                assert forall|i: int| 0 <= i < BOARD_CELLS implies cur[i] == b[i] by {
                    let yy = i / 9;
                    let xx = i % 9;
                    assert(i == yy * 9 + xx);
                    if yy == y && xx >= x - run {
                        assert(b[y * 9 + xx] is None);
                    }
                }
            }
            if run > 0 {
                assert(parse_cells(after_digit, 9, y, cur) == Some(b));
            }
        }
    } else {
        match b[y * 9 + x] {
            Option::None => {
                assert(fen_rank_from(b, y, x, run) =~= fen_rank_from(b, y, x + 1, run + 1));
                lemma_parse_rank(b, cur, y, x + 1, run + 1);
                assert(fen_rank_from(b, y, x, run) + tail_after(b, y) == fen_rank_from(
                    b,
                    y,
                    x + 1,
                    run + 1,
                ) + tail_after(b, y));
            },
            Option::Some(p) => {
                let letter = spec_piece_to_char(p);
                assert(!is_digit(letter) && letter != ' ' && letter != '/');
                assert(spec_piece_from_char(letter) == Some(p));
                let rest = seq![letter] + fen_rank_from(b, y, x + 1, 0) + tail_after(b, y);
                let s = fen_rank_from(b, y, x, run) + tail_after(b, y);
                if run > 0 {
                    assert(s.first() == digit_char(run));
                    assert(is_digit(digit_char(run)) && digit_val(digit_char(run)) == run);
                    assert(digit_char(run) != ' ' && digit_char(run) != '/');
                    assert(s.drop_first() =~= rest);
                } else {
                    assert(s =~= rest);
                }
                assert(rest.first() == letter);
                assert(rest.drop_first() =~= fen_rank_from(b, y, x + 1, 0) + tail_after(b, y));
                let cur2 = cur.update(y * 9 + x, Some(p));
                assert forall|yy: int, xx: int| 0 <= yy <= 9 && 0 <= xx < 9 implies (
                #[trigger] cur2[yy * 9 + xx]) == (if yy > y || (yy == y && xx < x + 1 - 0) {
                    b[yy * 9 + xx]
                } else {
                    None
                }) by {
                    if !(yy == y && xx == x) {
                        assert(yy * 9 + xx != y * 9 + x);
                        assert(cur2[yy * 9 + xx] == cur[yy * 9 + xx]);
                    }
                }
                lemma_parse_rank(b, cur2, y, x + 1, 0);
                if run > 0 {
                    assert(parse_cells(s, x - run, y, cur) == parse_cells(rest, x, y, cur));
                }
                assert(parse_cells(rest, x, y, cur) == parse_cells(
                    rest.drop_first(),
                    x + 1,
                    y,
                    cur2,
                ));
                assert(rest.drop_first() == fen_rank_from(b, y, x + 1, 0) + tail_after(b, y));
            },
        }
    }
}

/// Decoding the FEN text of a position reproduces the position: the
/// codec round-trips on every board.
pub proof fn lemma_fen_round_trip(b: Seq<Option<Piece>>)
    requires
        board_wf(b),
    ensures
        spec_parse_fen(spec_fen(b)) == Some(b),
{
    let empty = Seq::new(BOARD_CELLS as nat, |i: int| None::<Piece>);
    assert(Seq::new(BOARD_CELLS as nat, |i: int| None) =~= empty);
    assert(spec_fen(b) =~= fen_rank_from(b, 9, 0, 0) + tail_after(b, 9));
    assert forall|yy: int, xx: int| 0 <= yy <= 9 && 0 <= xx < 9 implies (#[trigger] empty[yy * 9
        + xx]) == (if yy > 9 || (yy == 9 && xx < 0) {
        b[yy * 9 + xx]
    } else {
        None
    }) by {}
    lemma_parse_rank(b, empty, 9, 0, 0);
}

} // verus!

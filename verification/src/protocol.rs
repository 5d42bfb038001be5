//! The wire protocol: one tagged message per line.
//!
//! Arbiter to player: `game <fen> <redTurn>`, `prompt <time>`,
//! `update <move>`. Player to arbiter: `init <version>`, `info <name>`,
//! `ready`, `play <move>`. Tokens are separated by whitespace; extra
//! trailing tokens are ignored; a malformed line or an unknown kind
//! decodes to nothing. A move is four ASCII characters, file and rank
//! of the source then of the destination, case-insensitive on decode.

use crate::location::{Location, Move, ParseError, BOARD_HEIGHT, BOARD_WIDTH};
use crate::text::{
    digit_char, digit_val, is_digit, lemma_dec_digits_are_digits, lemma_dec_digits_no_space,
    lemma_parse_u32_round_trip, is_space, lemma_tokens_single, lemma_tokens_word_space_rest, no_space,
    parse_bool, parse_u32, push_char, push_dec, spec_dec_digits, spec_parse_bool, spec_parse_u32,
    spec_tokens, str_eq, tokenize,
};
use vstd::prelude::*;
use vstd::string::StringExecFns;

verus! {

/// A message from the arbiter to a player.
#[derive(Clone, PartialEq, Debug)]
pub enum ArbiterMessage {
    /// Begin a new game from this position; `red_turn` says who moves.
    Game { fen: String, red_turn: bool },
    /// It is your turn; `time` is the advisory budget in milliseconds.
    Prompt { time: u32 },
    /// A move was played on the shared board; sent to both players.
    Update { mv: Move },
}

/// A message from a player to the arbiter.
#[derive(Clone, PartialEq, Debug)]
pub enum PlayerMessage {
    /// Must come first; only version 1 is accepted.
    Init { version: u32 },
    /// Must come second; the logical player name.
    Info { name: String },
    /// The `game` message was processed.
    Ready,
    /// A move in response to a `prompt`.
    Play { mv: Move },
}

/// The mathematical shape of an [`ArbiterMessage`].
pub enum ArbiterMessageView {
    Game { fen: Seq<char>, red_turn: bool },
    Prompt { time: u32 },
    Update { mv: Move },
}

/// The mathematical shape of a [`PlayerMessage`].
pub enum PlayerMessageView {
    Init { version: u32 },
    Info { name: Seq<char> },
    Ready,
    Play { mv: Move },
}

impl View for ArbiterMessage {
    type V = ArbiterMessageView;

    open spec fn view(&self) -> ArbiterMessageView {
        match self {
            ArbiterMessage::Game { fen, red_turn } => ArbiterMessageView::Game {
                fen: fen@,
                red_turn: *red_turn,
            },
            ArbiterMessage::Prompt { time } => ArbiterMessageView::Prompt { time: *time },
            ArbiterMessage::Update { mv } => ArbiterMessageView::Update { mv: *mv },
        }
    }
}

impl View for PlayerMessage {
    type V = PlayerMessageView;

    open spec fn view(&self) -> PlayerMessageView {
        match self {
            PlayerMessage::Init { version } => PlayerMessageView::Init { version: *version },
            PlayerMessage::Info { name } => PlayerMessageView::Info { name: name@ },
            PlayerMessage::Ready => PlayerMessageView::Ready,
            PlayerMessage::Play { mv } => PlayerMessageView::Play { mv: *mv },
        }
    }
}

/// View of an optional arbiter message.
pub open spec fn opt_arbiter_view(r: Option<ArbiterMessage>) -> Option<ArbiterMessageView> {
    match r {
        Some(m) => Some(m@),
        None => None,
    }
}

/// View of an optional player message.
pub open spec fn opt_player_view(r: Option<PlayerMessage>) -> Option<PlayerMessageView> {
    match r {
        Some(m) => Some(m@),
        None => None,
    }
}

/// File value of a move character: `a` to `i`, case-insensitive.
pub open spec fn spec_file_val(c: char) -> Option<i8> {
    if 'a' <= c <= 'i' {
        Some((c as u32 - 'a' as u32) as i8)
    } else if 'A' <= c <= 'I' {
        Some((c as u32 - 'A' as u32) as i8)
    } else {
        None
    }
}

/// Rank value of a move character: a decimal digit.
pub open spec fn spec_rank_val(c: char) -> Option<i8> {
    if is_digit(c) {
        Some(digit_val(c) as i8)
    } else {
        None
    }
}

/// The square two characters denote, if they are a file and a rank.
pub open spec fn spec_parse_square(f: char, r: char) -> Option<Location> {
    if spec_file_val(f) is Some && spec_rank_val(r) is Some {
        Some(Location { x: spec_file_val(f)->0, y: spec_rank_val(r)->0 })
    } else {
        None
    }
}

/// A move token: four file/rank characters; anything after is ignored.
pub open spec fn spec_parse_move(s: Seq<char>) -> Option<Move> {
    if s.len() >= 4 && spec_parse_square(s[0], s[1]) is Some && spec_parse_square(s[2], s[3])
        is Some {
        Some(Move { from: spec_parse_square(s[0], s[1])->0, to: spec_parse_square(s[2], s[3])->0 })
    } else {
        None
    }
}

/// The four characters of a move on the wire, lowercase.
pub open spec fn spec_move_chars(mv: Move) -> Seq<char> {
    seq![
        file_char(mv.from.x as int),
        digit_char(mv.from.y as int),
        file_char(mv.to.x as int),
        digit_char(mv.to.y as int),
    ]
}

/// The lowercase letter of a file value below nine.
pub open spec fn file_char(x: int) -> char {
    if x == 0 {
        'a'
    } else if x == 1 {
        'b'
    } else if x == 2 {
        'c'
    } else if x == 3 {
        'd'
    } else if x == 4 {
        'e'
    } else if x == 5 {
        'f'
    } else if x == 6 {
        'g'
    } else if x == 7 {
        'h'
    } else {
        'i'
    }
}

/// The wire text of a boolean.
pub open spec fn spec_bool_chars(b: bool) -> Seq<char> {
    if b {
        "true"@
    } else {
        "false"@
    }
}

/// What decoding a line from the arbiter yields.
pub open spec fn spec_decode_arbiter(line: Seq<char>) -> Option<ArbiterMessageView> {
    if spec_tokens(line).len() == 0 {
        None
    } else if spec_tokens(line)[0] == "game"@ {
        spec_decode_game(spec_tokens(line))
    } else if spec_tokens(line)[0] == "prompt"@ {
        spec_decode_prompt(spec_tokens(line))
    } else if spec_tokens(line)[0] == "update"@ {
        spec_decode_update(spec_tokens(line))
    } else {
        None
    }
}

/// The `game` message of a token list, if well formed.
pub open spec fn spec_decode_game(toks: Seq<Seq<char>>) -> Option<ArbiterMessageView> {
    if toks.len() >= 3 && spec_parse_bool(toks[2]) is Some {
        Some(ArbiterMessageView::Game { fen: toks[1], red_turn: spec_parse_bool(toks[2])->0 })
    } else {
        None
    }
}

/// The `prompt` message of a token list, if well formed.
pub open spec fn spec_decode_prompt(toks: Seq<Seq<char>>) -> Option<ArbiterMessageView> {
    if toks.len() >= 2 && spec_parse_u32(toks[1]) is Some {
        Some(ArbiterMessageView::Prompt { time: spec_parse_u32(toks[1])->0 })
    } else {
        None
    }
}

/// The `update` message of a token list, if well formed.
pub open spec fn spec_decode_update(toks: Seq<Seq<char>>) -> Option<ArbiterMessageView> {
    if toks.len() >= 2 && spec_parse_move(toks[1]) is Some {
        Some(ArbiterMessageView::Update { mv: spec_parse_move(toks[1])->0 })
    } else {
        None
    }
}

/// What decoding a line from a player yields.
pub open spec fn spec_decode_player(line: Seq<char>) -> Option<PlayerMessageView> {
    if spec_tokens(line).len() == 0 {
        None
    } else if spec_tokens(line)[0] == "init"@ {
        spec_decode_init(spec_tokens(line))
    } else if spec_tokens(line)[0] == "info"@ {
        spec_decode_info(spec_tokens(line))
    } else if spec_tokens(line)[0] == "ready"@ {
        Some(PlayerMessageView::Ready)
    } else if spec_tokens(line)[0] == "play"@ {
        spec_decode_play(spec_tokens(line))
    } else {
        None
    }
}

/// The `init` message of a token list, if well formed.
pub open spec fn spec_decode_init(toks: Seq<Seq<char>>) -> Option<PlayerMessageView> {
    if toks.len() >= 2 && spec_parse_u32(toks[1]) is Some {
        Some(PlayerMessageView::Init { version: spec_parse_u32(toks[1])->0 })
    } else {
        None
    }
}

/// The `info` message of a token list, if well formed.
pub open spec fn spec_decode_info(toks: Seq<Seq<char>>) -> Option<PlayerMessageView> {
    if toks.len() >= 2 {
        Some(PlayerMessageView::Info { name: toks[1] })
    } else {
        None
    }
}

/// The `play` message of a token list, if well formed.
pub open spec fn spec_decode_play(toks: Seq<Seq<char>>) -> Option<PlayerMessageView> {
    if toks.len() >= 2 && spec_parse_move(toks[1]) is Some {
        Some(PlayerMessageView::Play { mv: spec_parse_move(toks[1])->0 })
    } else {
        None
    }
}

/// The line an arbiter message is sent as, without the newline.
pub open spec fn spec_encode_arbiter(m: ArbiterMessageView) -> Seq<char> {
    match m {
        ArbiterMessageView::Game { fen, red_turn } => "game "@ + fen + " "@ + spec_bool_chars(
            red_turn,
        ),
        ArbiterMessageView::Prompt { time } => "prompt "@ + spec_dec_digits(time as nat),
        ArbiterMessageView::Update { mv } => "update "@ + spec_move_chars(mv),
    }
}

/// The line a player message is sent as, without the newline.
pub open spec fn spec_encode_player(m: PlayerMessageView) -> Seq<char> {
    match m {
        PlayerMessageView::Init { version } => "init "@ + spec_dec_digits(version as nat),
        PlayerMessageView::Info { name } => "info "@ + name,
        PlayerMessageView::Ready => "ready"@,
        PlayerMessageView::Play { mv } => "play "@ + spec_move_chars(mv),
    }
}

/// True when a message to a player can be put on the wire: a move it
/// carries must lie on the board.
pub open spec fn arbiter_msg_valid(m: ArbiterMessageView) -> bool {
    match m {
        ArbiterMessageView::Update { mv } => mv.is_valid(),
        _ => true,
    }
}

/// True when a message to the arbiter can be put on the wire: a move it
/// carries must lie on the board.
pub open spec fn player_msg_valid(m: PlayerMessageView) -> bool {
    match m {
        PlayerMessageView::Play { mv } => mv.is_valid(),
        _ => true,
    }
}

/// The protocol codec.
pub struct Protocol;

impl Protocol {
    /// Decode one line from the arbiter.
    pub fn decode_arbiter(line: &str) -> (r: Option<ArbiterMessage>)
        ensures
            opt_arbiter_view(r) == spec_decode_arbiter(line@),
    {
        let tokens = tokenize(line);
        let ghost toks = spec_tokens(line@);
        proof {
            assert(toks.len() == tokens@.len());
        }
        if tokens.len() == 0 {
            return None;
        }
        proof {
            assert(toks[0] == tokens@.map_values(|t: String| t@)[0]);
        }
        if str_eq(tokens[0].as_str(), "game") {
            if tokens.len() >= 3 {
                proof {
                    assert(toks[1] == tokens@.map_values(|t: String| t@)[1]);
                    assert(toks[2] == tokens@.map_values(|t: String| t@)[2]);
                }
                match parse_bool(tokens[2].as_str()) {
                    Some(red_turn) => Some(
                        ArbiterMessage::Game { fen: tokens[1].clone(), red_turn },
                    ),
                    None => None,
                }
            } else {
                None
            }
        } else if str_eq(tokens[0].as_str(), "prompt") {
            if tokens.len() >= 2 {
                proof {
                    assert(toks[1] == tokens@.map_values(|t: String| t@)[1]);
                }
                match parse_u32(tokens[1].as_str()) {
                    Some(time) => Some(ArbiterMessage::Prompt { time }),
                    None => None,
                }
            } else {
                None
            }
        } else if str_eq(tokens[0].as_str(), "update") {
            if tokens.len() >= 2 {
                proof {
                    assert(toks[1] == tokens@.map_values(|t: String| t@)[1]);
                }
                match parse_move(tokens[1].as_str()) {
                    Some(mv) => Some(ArbiterMessage::Update { mv }),
                    None => None,
                }
            } else {
                None
            }
        } else {
            None
        }
    }

    /// Decode one line from a player.
    pub fn decode_player(line: &str) -> (r: Option<PlayerMessage>)
        ensures
            opt_player_view(r) == spec_decode_player(line@),
    {
        let tokens = tokenize(line);
        let ghost toks = spec_tokens(line@);
        proof {
            assert(toks.len() == tokens@.len());
        }
        if tokens.len() == 0 {
            return None;
        }
        proof {
            assert(toks[0] == tokens@.map_values(|t: String| t@)[0]);
        }
        if str_eq(tokens[0].as_str(), "init") {
            if tokens.len() >= 2 {
                proof {
                    assert(toks[1] == tokens@.map_values(|t: String| t@)[1]);
                }
                match parse_u32(tokens[1].as_str()) {
                    Some(version) => Some(PlayerMessage::Init { version }),
                    None => None,
                }
            } else {
                None
            }
        } else if str_eq(tokens[0].as_str(), "info") {
            if tokens.len() >= 2 {
                proof {
                    assert(toks[1] == tokens@.map_values(|t: String| t@)[1]);
                }
                Some(PlayerMessage::Info { name: tokens[1].clone() })
            } else {
                None
            }
        } else if str_eq(tokens[0].as_str(), "ready") {
            Some(PlayerMessage::Ready)
        } else if str_eq(tokens[0].as_str(), "play") {
            if tokens.len() >= 2 {
                proof {
                    assert(toks[1] == tokens@.map_values(|t: String| t@)[1]);
                }
                match parse_move(tokens[1].as_str()) {
                    Some(mv) => Some(PlayerMessage::Play { mv }),
                    None => None,
                }
            } else {
                None
            }
        } else {
            None
        }
    }

    /// Encode a message to a player as one line, without the newline.
    pub fn encode_arbiter(message: ArbiterMessage) -> (r: String)
        requires
            arbiter_msg_valid(message@),
        ensures
            r@ == spec_encode_arbiter(message@),
    {
        match message {
            ArbiterMessage::Game { fen, red_turn } => {
                let mut line = String::from_str("game ");
                line.append(fen.as_str());
                line.append(" ");
                if red_turn {
                    line.append("true");
                } else {
                    line.append("false");
                }
                line
            },
            ArbiterMessage::Prompt { time } => {
                let mut line = String::from_str("prompt ");
                push_dec(&mut line, time);
                line
            },
            ArbiterMessage::Update { mv } => {
                let mut line = String::from_str("update ");
                push_move(&mut line, mv);
                line
            },
        }
    }

    /// Encode a message to the arbiter as one line, without the newline.
    pub fn encode_player(message: PlayerMessage) -> (r: String)
        requires
            player_msg_valid(message@),
        ensures
            r@ == spec_encode_player(message@),
    {
        match message {
            PlayerMessage::Init { version } => {
                let mut line = String::from_str("init ");
                push_dec(&mut line, version);
                line
            },
            PlayerMessage::Info { name } => {
                let mut line = String::from_str("info ");
                line.append(name.as_str());
                line
            },
            PlayerMessage::Ready => String::from_str("ready"),
            PlayerMessage::Play { mv } => {
                let mut line = String::from_str("play ");
                push_move(&mut line, mv);
                line
            },
        }
    }
}

impl Move {
    /// Parse a move from its wire form, reporting failure as an error.
    pub fn parse(s: &str) -> (r: Result<Move, ParseError>)
        ensures
            match r {
                Ok(m) => spec_parse_move(s@) == Some(m),
                Err(_) => spec_parse_move(s@) is None,
            },
    {
        match parse_move(s) {
            Some(m) => Ok(m),
            None => Err(ParseError),
        }
    }
}

/// Parse a move token: four file/rank characters, case-insensitive,
/// anything after them ignored.
pub fn parse_move(s: &str) -> (r: Option<Move>)
    ensures
        r == spec_parse_move(s@),
{
    let len = s.unicode_len();
    if len < 4 {
        return None;
    }
    let fx = file_val(s.get_char(0));
    let fy = rank_val(s.get_char(1));
    let tx = file_val(s.get_char(2));
    let ty = rank_val(s.get_char(3));
    match (fx, fy, tx, ty) {
        (Some(fx), Some(fy), Some(tx), Some(ty)) => Some(
            Move { from: Location { x: fx, y: fy }, to: Location { x: tx, y: ty } },
        ),
        _ => None,
    }
}

/// Append the four characters of a move.
pub fn push_move(line: &mut String, mv: Move)
    requires
        mv.is_valid(),
    ensures
        final(line)@ == old(line)@ + spec_move_chars(mv),
{
    push_file(line, mv.from.x);
    push_rank(line, mv.from.y);
    push_file(line, mv.to.x);
    push_rank(line, mv.to.y);
    proof {
        assert(final(line)@ =~= old(line)@ + spec_move_chars(mv));
    }
}

/// The wire text of a move.
pub fn encode_move(mv: Move) -> (r: String)
    requires
        mv.is_valid(),
    ensures
        r@ == spec_move_chars(mv),
{
    let mut line = String::new();
    push_move(&mut line, mv);
    proof {
        assert(line@ =~= spec_move_chars(mv));
    }
    line
}

/// Append the lowercase letter of a file.
fn push_file(line: &mut String, x: i8)
    requires
        0 <= x < BOARD_WIDTH,
    ensures
        final(line)@ == old(line)@.push(file_char(x as int)),
{
    let c = match x {
        0 => 'a',
        1 => 'b',
        2 => 'c',
        3 => 'd',
        4 => 'e',
        5 => 'f',
        6 => 'g',
        7 => 'h',
        _ => 'i',
    };
    push_char(line, c);
}

/// Append the digit of a rank.
fn push_rank(line: &mut String, y: i8)
    requires
        0 <= y < BOARD_HEIGHT,
    ensures
        final(line)@ == old(line)@.push(digit_char(y as int)),
{
    let c = match y {
        0 => '0',
        1 => '1',
        2 => '2',
        3 => '3',
        4 => '4',
        5 => '5',
        6 => '6',
        7 => '7',
        8 => '8',
        _ => '9',
    };
    push_char(line, c);
}

/// The file a letter denotes, case-insensitive.
fn file_val(c: char) -> (r: Option<i8>)
    ensures
        r == spec_file_val(c),
{
    let cv = c as u32;
    if 97 <= cv && cv <= 105 {
        proof {
            assert('a' <= c <= 'i');
        }
        Some((cv - 97) as i8)
    } else if 65 <= cv && cv <= 73 {
        proof {
            assert('A' <= c <= 'I');
        }
        Some((cv - 65) as i8)
    } else {
        proof {
            assert(!('a' <= c <= 'i') && !('A' <= c <= 'I'));
        }
        None
    }
}

/// The rank a digit denotes.
fn rank_val(c: char) -> (r: Option<i8>)
    ensures
        r == spec_rank_val(c),
{
    let cv = c as u32;
    if 48 <= cv && cv <= 57 {
        Some((cv - 48) as i8)
    } else {
        None
    }
}

} // verus!

verus! {

/// True when a player message has a canonical line: a carried move lies
/// on the board, and a name is nonempty without whitespace.
pub open spec fn player_msg_encodable(m: PlayerMessageView) -> bool {
    match m {
        PlayerMessageView::Info { name } => name.len() > 0 && no_space(name),
        PlayerMessageView::Play { mv } => mv.is_valid(),
        _ => true,
    }
}

/// True when an arbiter message has a canonical line: a carried move
/// lies on the board, and a position string is nonempty without
/// whitespace.
pub open spec fn arbiter_msg_encodable(m: ArbiterMessageView) -> bool {
    match m {
        ArbiterMessageView::Game { fen, .. } => fen.len() > 0 && no_space(fen),
        ArbiterMessageView::Update { mv } => mv.is_valid(),
        _ => true,
    }
}

/// The four characters of a valid move parse back to the move, and hold
/// no whitespace.
pub proof fn lemma_move_round_trip(mv: Move)
    requires
        mv.is_valid(),
    ensures
        spec_parse_move(spec_move_chars(mv)) == Some(mv),
        spec_move_chars(mv).len() == 4,
        no_space(spec_move_chars(mv)),
{
    let s = spec_move_chars(mv);
    assert(spec_file_val(file_char(mv.from.x as int)) == Some(mv.from.x));
    assert(spec_rank_val(digit_char(mv.from.y as int)) == Some(mv.from.y));
    assert(spec_file_val(file_char(mv.to.x as int)) == Some(mv.to.x));
    assert(spec_rank_val(digit_char(mv.to.y as int)) == Some(mv.to.y));
    assert(!is_space(s[0]) && !is_space(s[1]) && !is_space(s[2]) && !is_space(s[3]));
    assert(no_space(s)) by {
        assert(forall|i: int| 0 <= i < 4 ==> #[trigger] s[i] == s[0] || s[i] == s[1] || s[i]
            == s[2] || s[i] == s[3]);
    }
}

/// The wire text of a boolean parses back to the boolean, is nonempty,
/// and holds no whitespace.
pub proof fn lemma_bool_round_trip(b: bool)
    ensures
        spec_parse_bool(spec_bool_chars(b)) == Some(b),
        spec_bool_chars(b).len() > 0,
        no_space(spec_bool_chars(b)),
{
    reveal_strlit("true");
    reveal_strlit("false");
    assert("true"@.len() == 4 && "false"@.len() == 5);
    assert(no_space("true"@)) by {
        assert("true"@[0] == 't' && "true"@[1] == 'r' && "true"@[2] == 'u' && "true"@[3] == 'e');
    }
    assert(no_space("false"@)) by {
        assert("false"@[0] == 'f' && "false"@[1] == 'a' && "false"@[2] == 'l' && "false"@[3]
            == 's' && "false"@[4] == 'e');
    }
}

/// Decoding the canonical line of a player message gives the message
/// back.
pub proof fn lemma_player_decode_encode(m: PlayerMessageView)
    requires
        player_msg_encodable(m),
    ensures
        spec_decode_player(spec_encode_player(m)) == Some(m),
{
    reveal_strlit("init");
    reveal_strlit("info");
    reveal_strlit("ready");
    reveal_strlit("play");
    reveal_strlit("init ");
    reveal_strlit("info ");
    reveal_strlit("play ");
    reveal_strlit(" ");
    assert("init"@.len() == 4 && "info"@.len() == 4 && "ready"@.len() == 5 && "play"@.len() == 4);
    assert("init"@[0] == 'i' && "info"@[0] == 'i' && "play"@[0] == 'p');
    assert("init"@[2] == 'i' && "info"@[2] == 'f');
    assert(no_space("init"@)) by {
        assert("init"@[0] == 'i' && "init"@[1] == 'n' && "init"@[2] == 'i' && "init"@[3] == 't');
    }
    assert(no_space("info"@)) by {
        assert("info"@[0] == 'i' && "info"@[1] == 'n' && "info"@[2] == 'f' && "info"@[3] == 'o');
    }
    assert(no_space("ready"@)) by {
        assert("ready"@[0] == 'r' && "ready"@[1] == 'e' && "ready"@[2] == 'a' && "ready"@[3]
            == 'd' && "ready"@[4] == 'y');
    }
    assert(no_space("play"@)) by {
        assert("play"@[0] == 'p' && "play"@[1] == 'l' && "play"@[2] == 'a' && "play"@[3] == 'y');
    }
    match m {
        PlayerMessageView::Init { version } => {
            let digits = spec_dec_digits(version as nat);
            lemma_dec_digits_are_digits(version as nat);
            lemma_dec_digits_no_space(version as nat);
            assert("init "@ + digits =~= "init"@ + " "@ + digits);
            lemma_tokens_word_space_rest("init"@, digits);
            lemma_tokens_single(digits);
            lemma_parse_u32_round_trip(version);
            assert(spec_tokens(spec_encode_player(m)) == seq!["init"@, digits]);
        },
        PlayerMessageView::Info { name } => {
            assert("info "@ + name =~= "info"@ + " "@ + name);
            lemma_tokens_word_space_rest("info"@, name);
            lemma_tokens_single(name);
            assert(spec_tokens(spec_encode_player(m)) == seq!["info"@, name]);
            assert("info"@ != "init"@);
        },
        PlayerMessageView::Ready => {
            lemma_tokens_single("ready"@);
            assert(spec_tokens(spec_encode_player(m)) == seq!["ready"@]);
            assert("ready"@ != "init"@ && "ready"@ != "info"@);
        },
        PlayerMessageView::Play { mv } => {
            let chars = spec_move_chars(mv);
            lemma_move_round_trip(mv);
            assert("play "@ + chars =~= "play"@ + " "@ + chars);
            lemma_tokens_word_space_rest("play"@, chars);
            lemma_tokens_single(chars);
            assert(spec_tokens(spec_encode_player(m)) == seq!["play"@, chars]);
            assert("play"@ != "init"@ && "play"@ != "info"@ && "play"@ != "ready"@);
        },
    }
}

/// Decoding the canonical line of an arbiter message gives the message
/// back.
pub proof fn lemma_arbiter_decode_encode(m: ArbiterMessageView)
    requires
        arbiter_msg_encodable(m),
    ensures
        spec_decode_arbiter(spec_encode_arbiter(m)) == Some(m),
{
    reveal_strlit("game");
    reveal_strlit("prompt");
    reveal_strlit("update");
    reveal_strlit("game ");
    reveal_strlit("prompt ");
    reveal_strlit("update ");
    reveal_strlit(" ");
    assert("game"@.len() == 4 && "prompt"@.len() == 6 && "update"@.len() == 6);
    assert("prompt"@[0] == 'p' && "update"@[0] == 'u');
    assert(no_space("game"@)) by {
        assert("game"@[0] == 'g' && "game"@[1] == 'a' && "game"@[2] == 'm' && "game"@[3] == 'e');
    }
    assert(no_space("prompt"@)) by {
        assert("prompt"@[0] == 'p' && "prompt"@[1] == 'r' && "prompt"@[2] == 'o' && "prompt"@[3]
            == 'm' && "prompt"@[4] == 'p' && "prompt"@[5] == 't');
    }
    assert(no_space("update"@)) by {
        assert("update"@[0] == 'u' && "update"@[1] == 'p' && "update"@[2] == 'd' && "update"@[3]
            == 'a' && "update"@[4] == 't' && "update"@[5] == 'e');
    }
    match m {
        ArbiterMessageView::Game { fen, red_turn } => {
            lemma_bool_round_trip(red_turn);
            let tail = fen + " "@ + spec_bool_chars(red_turn);
            assert(spec_encode_arbiter(m) =~= "game"@ + " "@ + tail);
            lemma_tokens_word_space_rest("game"@, tail);
            lemma_tokens_word_space_rest(fen, spec_bool_chars(red_turn));
            assert(tail =~= fen + " "@ + spec_bool_chars(red_turn));
            lemma_tokens_single(spec_bool_chars(red_turn));
            assert(spec_tokens(spec_encode_arbiter(m)) == seq!["game"@, fen, spec_bool_chars(
                red_turn,
            )]);
        },
        ArbiterMessageView::Prompt { time } => {
            let digits = spec_dec_digits(time as nat);
            lemma_dec_digits_are_digits(time as nat);
            lemma_dec_digits_no_space(time as nat);
            assert("prompt "@ + digits =~= "prompt"@ + " "@ + digits);
            lemma_tokens_word_space_rest("prompt"@, digits);
            lemma_tokens_single(digits);
            lemma_parse_u32_round_trip(time);
            assert(spec_tokens(spec_encode_arbiter(m)) == seq!["prompt"@, digits]);
            assert("prompt"@ != "game"@);
        },
        ArbiterMessageView::Update { mv } => {
            let chars = spec_move_chars(mv);
            lemma_move_round_trip(mv);
            assert("update "@ + chars =~= "update"@ + " "@ + chars);
            lemma_tokens_word_space_rest("update"@, chars);
            lemma_tokens_single(chars);
            assert(spec_tokens(spec_encode_arbiter(m)) == seq!["update"@, chars]);
            assert("update"@ != "game"@ && "update"@ != "prompt"@);
        },
    }
}

/// A well-formed player line — one that is the canonical encoding of
/// some message — decodes, and encoding the decoded message gives the
/// line back unchanged.
pub proof fn lemma_player_line_round_trip(line: Seq<char>, m: PlayerMessageView)
    requires
        player_msg_encodable(m),
        line == spec_encode_player(m),
    ensures
        spec_decode_player(line) is Some,
        spec_encode_player(spec_decode_player(line)->0) == line,
{
    lemma_player_decode_encode(m);
}

/// A well-formed arbiter line — one that is the canonical encoding of
/// some message — decodes, and encoding the decoded message gives the
/// line back unchanged.
pub proof fn lemma_arbiter_line_round_trip(line: Seq<char>, m: ArbiterMessageView)
    requires
        arbiter_msg_encodable(m),
        line == spec_encode_arbiter(m),
    ensures
        spec_decode_arbiter(line) is Some,
        spec_encode_arbiter(spec_decode_arbiter(line)->0) == line,
{
    lemma_arbiter_decode_encode(m);
}

} // verus!

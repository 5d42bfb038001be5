use xiangqi_arbiter::location::{Location, Move};
use xiangqi_arbiter::protocol::{encode_move, parse_move, ArbiterMessage, PlayerMessage, Protocol};
use xiangqi_arbiter::text::{parse_bool, parse_u32, str_eq, tokenize, u32_to_string};

fn mv(fx: i8, fy: i8, tx: i8, ty: i8) -> Move {
    Move {
        from: Location { x: fx, y: fy },
        to: Location { x: tx, y: ty },
    }
}

#[test]
fn decode_player_init() {
    assert_eq!(
        Protocol::decode_player("init 1"),
        Some(PlayerMessage::Init { version: 1 })
    );
    assert_eq!(
        Protocol::decode_player("  init   007  junk"),
        Some(PlayerMessage::Init { version: 7 })
    );
    assert_eq!(Protocol::decode_player("init"), None);
    assert_eq!(Protocol::decode_player("init x"), None);
}

#[test]
fn decode_player_info_ready_play() {
    assert_eq!(
        Protocol::decode_player("info alice"),
        Some(PlayerMessage::Info {
            name: "alice".to_string()
        })
    );
    assert_eq!(Protocol::decode_player("info"), None);
    assert_eq!(Protocol::decode_player("ready"), Some(PlayerMessage::Ready));
    assert_eq!(
        Protocol::decode_player("ready trailing tokens"),
        Some(PlayerMessage::Ready)
    );
    assert_eq!(
        Protocol::decode_player("play a0a1"),
        Some(PlayerMessage::Play { mv: mv(0, 0, 0, 1) })
    );
    assert_eq!(Protocol::decode_player("play"), None);
    assert_eq!(Protocol::decode_player("play a0"), None);
    assert_eq!(Protocol::decode_player("quit"), None);
    assert_eq!(Protocol::decode_player(""), None);
    assert_eq!(Protocol::decode_player("   "), None);
}

#[test]
fn decode_move_case_insensitive() {
    assert_eq!(
        Protocol::decode_player("play A0a0"),
        Some(PlayerMessage::Play { mv: mv(0, 0, 0, 0) })
    );
    assert_eq!(
        Protocol::decode_player("play I9B2"),
        Some(PlayerMessage::Play { mv: mv(8, 9, 1, 2) })
    );
    assert_eq!(Protocol::decode_player("play j0a0"), None);
    assert_eq!(parse_move("h2e2"), Some(mv(7, 2, 4, 2)));
    assert_eq!(parse_move("h2e2extra"), Some(mv(7, 2, 4, 2)));
    assert_eq!(parse_move("h2e"), None);
    assert_eq!(parse_move("a0aX"), None);
}

#[test]
fn decode_arbiter_messages() {
    assert_eq!(
        Protocol::decode_arbiter("prompt 1000"),
        Some(ArbiterMessage::Prompt { time: 1000 })
    );
    assert_eq!(
        Protocol::decode_arbiter("update b0c2"),
        Some(ArbiterMessage::Update { mv: mv(1, 0, 2, 2) })
    );
    assert_eq!(
        Protocol::decode_arbiter("game abc/def true"),
        Some(ArbiterMessage::Game {
            fen: "abc/def".to_string(),
            red_turn: true
        })
    );
    assert_eq!(Protocol::decode_arbiter("game abc/def maybe"), None);
    assert_eq!(Protocol::decode_arbiter("game abc/def"), None);
    assert_eq!(Protocol::decode_arbiter("prompt -5"), None);
    assert_eq!(Protocol::decode_arbiter("update"), None);
    assert_eq!(Protocol::decode_arbiter("init 1"), None);
}

#[test]
fn encode_messages() {
    assert_eq!(
        Protocol::encode_player(PlayerMessage::Init { version: 1 }),
        "init 1"
    );
    assert_eq!(
        Protocol::encode_player(PlayerMessage::Info {
            name: "bob".to_string()
        }),
        "info bob"
    );
    assert_eq!(Protocol::encode_player(PlayerMessage::Ready), "ready");
    assert_eq!(
        Protocol::encode_player(PlayerMessage::Play { mv: mv(7, 2, 4, 2) }),
        "play h2e2"
    );
    assert_eq!(
        Protocol::encode_arbiter(ArbiterMessage::Prompt { time: 1000 }),
        "prompt 1000"
    );
    assert_eq!(
        Protocol::encode_arbiter(ArbiterMessage::Game {
            fen: "abc/def".to_string(),
            red_turn: false
        }),
        "game abc/def false"
    );
    assert_eq!(
        Protocol::encode_arbiter(ArbiterMessage::Update { mv: mv(0, 0, 0, 1) }),
        "update a0a1"
    );
    assert_eq!(encode_move(mv(8, 9, 0, 0)), "i9a0");
}

#[test]
fn line_round_trips() {
    // A well-formed line decodes, and encoding the message gives the
    // line back unchanged.
    let lines = [
        "init 3",
        "info carol",
        "ready",
        "play a0a1",
        "game rheakaehr/9/1c5c1/p1p1p1p1p/9/9/P1P1P1P1P/1C5C1/9/RHEAKAEHR true",
        "prompt 1000",
        "update h2e2",
    ];
    for line in lines {
        if let Some(message) = Protocol::decode_player(line) {
            assert_eq!(Protocol::encode_player(message), line);
        } else {
            let message = Protocol::decode_arbiter(line).unwrap();
            assert_eq!(Protocol::encode_arbiter(message), line);
        }
    }
}

#[test]
fn decode_normalizes_whitespace() {
    // A line that is not normalized decodes to the same message as its
    // normalized form.
    let message = Protocol::decode_player("  play\t h2e2   ").unwrap();
    assert_eq!(Protocol::encode_player(message), "play h2e2");
}

#[test]
fn move_parse_result() {
    assert_eq!(Move::parse("a0a1"), Ok(mv(0, 0, 0, 1)));
    assert!(Move::parse("a0").is_err());
    assert!(Move::parse("zzzz").is_err());
}

#[test]
fn number_parsing() {
    assert_eq!(parse_u32("0"), Some(0));
    assert_eq!(parse_u32("007"), Some(7));
    assert_eq!(parse_u32("+12"), Some(12));
    assert_eq!(parse_u32("4294967295"), Some(u32::MAX));
    assert_eq!(parse_u32("4294967296"), None);
    assert_eq!(parse_u32(""), None);
    assert_eq!(parse_u32("+"), None);
    assert_eq!(parse_u32("1a"), None);
    assert_eq!(parse_u32("-1"), None);
    assert_eq!(u32_to_string(0), "0");
    assert_eq!(u32_to_string(1000), "1000");
    assert_eq!(u32_to_string(u32::MAX), "4294967295");
}

#[test]
fn bool_parsing_and_tokens() {
    assert_eq!(parse_bool("true"), Some(true));
    assert_eq!(parse_bool("false"), Some(false));
    assert_eq!(parse_bool("True"), None);
    assert_eq!(parse_bool(""), None);
    assert!(str_eq("abc", "abc"));
    assert!(!str_eq("abc", "abd"));
    let tokens = tokenize("  one  two\tthree ");
    assert_eq!(tokens, ["one", "two", "three"]);
    assert_eq!(tokenize(""), Vec::<String>::new());
    assert_eq!(tokenize(" \t "), Vec::<String>::new());
}

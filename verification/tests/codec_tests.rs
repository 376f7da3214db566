use plump::cards::Card;
use plump::codec::{decode_message, encode_message};
use plump::message::Message;
use plump::structs::{Player, PlayerName, PublicState, Trick};
use plump::text::{format_usize, parse_usize};

fn player(name: &str, human: bool, hand: Vec<Card>) -> Player {
    Player { name: PlayerName(name.to_string()), human, hand }
}

fn round_trips(m: Message) -> Message {
    let line = encode_message(&m);
    assert!(!line.as_str().contains('\n'));
    let back = decode_message(line.as_str()).unwrap();
    assert_eq!(encode_message(&back), line);
    back
}

#[test]
fn round_trip_request_guess_context() {
    let m = Message::RequestGuessContext {
        player: player("alice", true, vec![Card { suit: 0, value: 3 }]),
        hand: vec![Card { suit: 0, value: 3 }, Card { suit: 2, value: 11 }],
        guesses: vec![2, 0],
        players: 3,
    };
    match round_trips(m) {
        Message::RequestGuessContext { player, hand, guesses, players } => {
            assert_eq!(player.name.as_str(), "alice");
            assert!(player.human);
            assert_eq!(player.hand, vec![Card { suit: 0, value: 3 }]);
            assert_eq!(hand, vec![Card { suit: 0, value: 3 }, Card { suit: 2, value: 11 }]);
            assert_eq!(guesses, vec![2, 0]);
            assert_eq!(players, 3);
        },
        _ => panic!("wrong variant"),
    }
}

#[test]
fn round_trip_guesses_and_scoreboard() {
    let state = vec![
        (PlayerName("a".to_string()), PublicState { guess: Some(2), wins: 1, score: 10 }),
        (PlayerName("b".to_string()), PublicState { guess: None, wins: 0, score: 0 }),
    ];
    match round_trips(Message::Guesses { state: state.clone() }) {
        Message::Guesses { state } => {
            assert_eq!(state.len(), 2);
            assert_eq!(state[0].0.as_str(), "a");
            assert_eq!(state[0].1, PublicState { guess: Some(2), wins: 1, score: 10 });
            assert_eq!(state[1].0.as_str(), "b");
            assert_eq!(state[1].1, PublicState { guess: None, wins: 0, score: 0 });
        },
        _ => panic!("wrong variant"),
    }
    match round_trips(Message::Scoreboard { state }) {
        Message::Scoreboard { state } => assert_eq!(state.len(), 2),
        _ => panic!("wrong variant"),
    }
}

#[test]
fn round_trip_turn_winner_play_request() {
    match round_trips(Message::Turn { whose: player("bob", false, Vec::new()) }) {
        Message::Turn { whose } => assert_eq!(whose.name.as_str(), "bob"),
        _ => panic!("wrong variant"),
    }
    match round_trips(Message::Winner(player("carol", true, Vec::new()))) {
        Message::Winner(p) => assert_eq!(p.name.as_str(), "carol"),
        _ => panic!("wrong variant"),
    }
    match round_trips(Message::PlayRequest(player("dave", true, Vec::new()))) {
        Message::PlayRequest(p) => assert_eq!(p.name.as_str(), "dave"),
        _ => panic!("wrong variant"),
    }
}

#[test]
fn round_trip_play_request_context() {
    let m = Message::PlayRequestContext {
        player: player("erin", true, Vec::new()),
        hand: vec![Card { suit: 1, value: 0 }, Card { suit: 3, value: 12 }],
        trick: Trick(vec![Card { suit: 1, value: 4 }]),
        valid_cards: Some(vec![0]),
    };
    match round_trips(m) {
        Message::PlayRequestContext { player, hand, trick, valid_cards } => {
            assert_eq!(player.name.as_str(), "erin");
            assert_eq!(hand.len(), 2);
            assert_eq!(trick.0, vec![Card { suit: 1, value: 4 }]);
            assert_eq!(valid_cards, Some(vec![0]));
        },
        _ => panic!("wrong variant"),
    }
    let unrestricted = Message::PlayRequestContext {
        player: player("erin", true, Vec::new()),
        hand: vec![Card { suit: 1, value: 0 }],
        trick: Trick(Vec::new()),
        valid_cards: None,
    };
    match round_trips(unrestricted) {
        Message::PlayRequestContext { valid_cards, .. } => assert_eq!(valid_cards, None),
        _ => panic!("wrong variant"),
    }
}

#[test]
fn round_trip_trick_and_winners() {
    match round_trips(Message::Trick(Trick(vec![Card { suit: 2, value: 9 }]))) {
        Message::Trick(t) => assert_eq!(t.0, vec![Card { suit: 2, value: 9 }]),
        _ => panic!("wrong variant"),
    }
    match round_trips(Message::Trick(Trick(Vec::new()))) {
        Message::Trick(t) => assert!(t.0.is_empty()),
        _ => panic!("wrong variant"),
    }
    let m = Message::Winners {
        players: vec![player("a", true, Vec::new()), player("b", false, Vec::new())],
        winner_indices: vec![0, 1],
    };
    match round_trips(m) {
        Message::Winners { players, winner_indices } => {
            assert_eq!(players.len(), 2);
            assert_eq!(players[1].name.as_str(), "b");
            assert_eq!(winner_indices, vec![0, 1]);
        },
        _ => panic!("wrong variant"),
    }
}

#[test]
fn round_trip_unit_variants() {
    assert!(matches!(round_trips(Message::RequestPlayerName), Message::RequestPlayerName));
    assert!(matches!(round_trips(Message::RequestGuess), Message::RequestGuess));
    assert!(matches!(round_trips(Message::GameOver), Message::GameOver));
}

#[test]
fn round_trip_name_with_escapes() {
    let tricky = "a\"b\\c\nd";
    match round_trips(Message::Turn { whose: player(tricky, true, Vec::new()) }) {
        Message::Turn { whose } => assert_eq!(whose.name.as_str(), tricky),
        _ => panic!("wrong variant"),
    }
}

#[test]
fn encoded_lines_are_tagged_json() {
    let line = encode_message(&Message::Turn { whose: player("zoe", true, Vec::new()) });
    assert_eq!(
        line.as_str(),
        "{\"Turn\":{\"whose\":{\"name\":\"zoe\",\"human\":true,\"hand\":[]}}}"
    );
    let unit = encode_message(&Message::RequestGuess);
    assert_eq!(unit.as_str(), "\"RequestGuess\"");
}

#[test]
fn decode_refuses_garbage_and_trailers() {
    assert!(decode_message("").is_none());
    assert!(decode_message("{").is_none());
    assert!(decode_message("\"NoSuchTag\"").is_none());
    assert!(decode_message("{\"Turn\":").is_none());
    let mut line = encode_message(&Message::RequestGuess);
    line.push('x');
    assert!(decode_message(line.as_str()).is_none());
}

#[test]
fn numeric_replies_round_trip() {
    assert_eq!(parse_usize(format_usize(0).as_str()), Some(0));
    assert_eq!(parse_usize(format_usize(12345).as_str()), Some(12345));
    assert_eq!(format_usize(907).as_str(), "907");
}

#[test]
fn numeric_reply_rejections() {
    assert_eq!(parse_usize(""), None);
    assert_eq!(parse_usize("12a"), None);
    assert_eq!(parse_usize("-3"), None);
    assert_eq!(parse_usize("99999999999999999999999999"), None);
    assert_eq!(parse_usize("007"), Some(7));
}

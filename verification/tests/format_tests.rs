use plump::cards::Card;
use plump::format::{
    darken, format_card, format_guess, format_guesses, format_hand, format_play_request,
    format_play_request_context, format_player_prompt, format_request_guess,
    format_request_guess_context, format_request_player_name, format_scoreboard, format_trick,
    format_turn, format_winner, format_winners,
};
use plump::message::Message;
use plump::structs::{Player, PlayerName, PublicState, Trick};

fn player(name: &str) -> Player {
    Player { name: PlayerName(name.to_string()), human: true, hand: Vec::new() }
}

#[test]
fn card_rendering() {
    assert_eq!(format_card(Card { suit: 0, value: 0 }, false, None).as_str(), "\u{2665}2");
    assert_eq!(format_card(Card { suit: 1, value: 8 }, false, None).as_str(), "\u{2663}10");
    assert_eq!(format_card(Card { suit: 2, value: 9 }, false, None).as_str(), "\u{2666}J");
    assert_eq!(format_card(Card { suit: 3, value: 12 }, false, None).as_str(), "\u{2660}A");
    assert_eq!(format_card(Card { suit: 0, value: 5 }, false, Some(3)).as_str(), "3|\u{2665}7");
    assert_eq!(
        format_card(Card { suit: 0, value: 0 }, true, None).as_str(),
        "\u{1b}[90m\u{2665}2\u{1b}[0m"
    );
}

#[test]
fn darken_wraps_in_terminal_codes() {
    assert_eq!(darken("hi").as_str(), "\u{1b}[90mhi\u{1b}[0m");
}

#[test]
fn trick_rendering() {
    let empty = Trick(Vec::new());
    assert!(format_trick(&empty).is_none());
    let trick = Trick(vec![Card { suit: 0, value: 0 }, Card { suit: 1, value: 12 }]);
    assert_eq!(format_trick(&trick).unwrap().as_str(), "\u{2665}2 \u{2663}A");
}

#[test]
fn hand_rendering_dims_illegal_cards() {
    let hand = vec![Card { suit: 0, value: 0 }, Card { suit: 1, value: 0 }];
    let text = format_hand(&hand, &Some(vec![1]), true);
    assert_eq!(text.as_str(), "\u{1b}[90m0|\u{2665}2\u{1b}[0m 1|\u{2663}2");
    let free = format_hand(&hand, &None, false);
    assert_eq!(free.as_str(), "\u{2665}2 \u{2663}2");
}

#[test]
fn guess_rendering() {
    assert_eq!(format_guess(&PublicState { guess: None, wins: 0, score: 0 }).as_str(), "?");
    assert_eq!(format_guess(&PublicState { guess: Some(4), wins: 0, score: 0 }).as_str(), "4");
}

#[test]
fn guesses_line() {
    let state = vec![
        (PlayerName("a".to_string()), PublicState { guess: Some(1), wins: 0, score: 0 }),
        (PlayerName("b".to_string()), PublicState { guess: None, wins: 0, score: 0 }),
    ];
    assert_eq!(format_guesses(&state).as_str(), "Guesses: a: 1, b: ?");
}

#[test]
fn scoreboard_line_shows_faces_and_totals() {
    let state = vec![
        (PlayerName("a".to_string()), PublicState { guess: Some(2), wins: 2, score: 30 }),
        (PlayerName("b".to_string()), PublicState { guess: Some(1), wins: 0, score: 10 }),
    ];
    assert_eq!(
        format_scoreboard(&state).as_str(),
        "a: 2/2 \u{1F642} (total: 30), b: 0/1 \u{1F643} (total: 10)"
    );
}

#[test]
fn player_prompt_headers() {
    assert_eq!(format_player_prompt(&Trick(Vec::new())).as_str(), "You go first!");
    let trick = Trick(vec![Card { suit: 3, value: 11 }]);
    assert_eq!(format_player_prompt(&trick).as_str(), "Trick: \u{2660}K");
}

#[test]
fn turn_and_winner_lines() {
    assert_eq!(format_turn(&player("ann")).as_str(), "ann's turn");
    assert_eq!(format_winner(&player("ben")).as_str(), "ben won!");
}

#[test]
fn guess_context_line() {
    let hand = vec![Card { suit: 0, value: 0 }];
    let text = format_request_guess_context(&player("ann"), &hand, &vec![2, 0], 3);
    assert_eq!(
        text.as_str(),
        "ann: Hand: \u{2665}2, Previous Guesses: 2 0, Players: 3"
    );
}

#[test]
fn winners_line() {
    let players = vec![player("ann"), player("ben"), player("eva")];
    let text = format_winners(&players, &vec![0, 2]);
    assert_eq!(text.as_str(), "The winner(s) is/are ann, eva!");
}

#[test]
fn prompt_literals() {
    assert_eq!(format_request_guess().as_str(), "Please make a guess: ");
    assert_eq!(format_request_player_name().as_str(), "Please input player name: ");
}

#[test]
fn message_text_dispatch() {
    assert_eq!(Message::RequestGuess.to_string().as_str(), "Please make a guess: ");
    assert_eq!(Message::GameOver.to_string().as_str(), "Game over!");
    assert_eq!(
        Message::Turn { whose: player("zed") }.to_string().as_str(),
        "zed's turn"
    );
    assert_eq!(Message::Trick(Trick(Vec::new())).to_string().as_str(), "");
    let trick = Message::Trick(Trick(vec![Card { suit: 0, value: 3 }]));
    assert_eq!(trick.to_string().as_str(), "\u{2665}5");
    let winners = Message::Winners { players: vec![player("zed")], winner_indices: vec![0] };
    assert_eq!(winners.to_string().as_str(), "The winner(s) is/are zed!");
}

#[test]
fn play_request_lines() {
    assert_eq!(
        format_play_request(&player("ann")).as_str(),
        "ann: Select card to play (leftmost is 0): "
    );
    let hand = vec![Card { suit: 0, value: 0 }];
    let trick = Trick(Vec::new());
    let text = format_play_request_context(&player("ann"), &hand, &trick, &None);
    assert_eq!(text.as_str(), "ann: Hand: 0|\u{2665}2, You go first!");
}

#[test]
fn scoreboard_sorts_by_player_name() {
    let state = vec![
        (PlayerName("zoe".to_string()), PublicState { guess: Some(1), wins: 1, score: 10 }),
        (PlayerName("ann".to_string()), PublicState { guess: Some(0), wins: 0, score: 20 }),
        (PlayerName("ben".to_string()), PublicState { guess: None, wins: 0, score: 0 }),
    ];
    assert_eq!(
        format_scoreboard(&state).as_str(),
        "ann: 0/0 \u{1F642} (total: 20), ben: 0/? \u{1F643} (total: 0), zoe: 1/1 \u{1F642} (total: 10)"
    );
}

use std::collections::VecDeque;

use plump::cards::Card;
use plump::game::{
    contains_index, create_players, default_num_rounds, fallback_guess, game, make_state_list,
    play_card, play_human_card, request_guess, rotate_left, Communicator,
};
use plump::message::Message;
use plump::policy::{make_guess, make_play};
use plump::session::negotiate_name;
use plump::structs::{Player, PlayerName, PublicState, Trick};

/// A communicator that answers reads from a fixed script and remembers
/// how many messages went out.
struct Scripted {
    replies: VecDeque<String>,
    sent: usize,
}

impl Scripted {
    fn new(replies: Vec<&str>) -> Scripted {
        Scripted { replies: replies.into_iter().map(|r| r.to_string()).collect(), sent: 0 }
    }
}

impl Communicator for Scripted {
    fn read(&mut self, _player: &PlayerName, _prompt: Message) -> String {
        self.replies.pop_front().expect("script exhausted")
    }

    fn write_to_all(&mut self, _text: Message) {
        self.sent += 1;
    }

    fn write_to_one(&mut self, _player: &PlayerName, _text: Message) {
        self.sent += 1;
    }

    fn wait_for_reconnect(&mut self, _player: &str) {}
}

#[test]
fn create_players_keeps_names_and_flags() {
    let names = vec![("ann".to_string(), true), ("bot".to_string(), false)];
    let players = create_players(&names);
    assert_eq!(players.len(), 2);
    assert_eq!(players[0].name.as_str(), "ann");
    assert!(players[0].human);
    assert!(players[0].hand.is_empty());
    assert_eq!(players[1].name.as_str(), "bot");
    assert!(!players[1].human);
}

#[test]
fn automated_game_runs_to_completion() {
    let names = vec![
        ("a".to_string(), false),
        ("b".to_string(), false),
        ("c".to_string(), false),
    ];
    let mut players = create_players(&names);
    let mut comm = Scripted::new(Vec::new());
    let winners = game(&mut comm, &mut players, 2);
    assert!(!winners.is_empty());
    for w in winners.windows(2) {
        assert!(w[0] < w[1]);
    }
    for w in &winners {
        assert!(*w < 3);
    }
    assert!(comm.sent > 0);
    assert_eq!(players.len(), 3);
}

#[test]
fn request_guess_reprompts_until_valid() {
    let player = Player { name: PlayerName("ann".to_string()), human: true, hand: Vec::new() };
    let hand = vec![
        Card { suit: 0, value: 1 },
        Card { suit: 0, value: 2 },
        Card { suit: 0, value: 3 },
        Card { suit: 0, value: 4 },
        Card { suit: 0, value: 5 },
    ];
    // "abc" is not a number, "9" exceeds the hand size, "2" makes the sum
    // exact for the last guesser; "3" is finally valid.
    let mut comm = Scripted::new(vec!["abc", "9", "2", "3"]);
    let guess = request_guess(&mut comm, &player, &hand, &vec![2, 1], 3);
    assert_eq!(guess, 3);
    assert!(comm.replies.is_empty());
}

#[test]
fn play_human_card_enforces_led_suit() {
    let player = Player { name: PlayerName("ann".to_string()), human: true, hand: Vec::new() };
    let hand = vec![
        Card { suit: 0, value: 2 },
        Card { suit: 1, value: 5 },
        Card { suit: 0, value: 9 },
    ];
    let trick = Trick(vec![Card { suit: 0, value: 4 }]);
    // "5" is out of range and "1" does not follow the led suit; "2" is a
    // legal index.
    let mut comm = Scripted::new(vec!["5", "1", "2"]);
    let (new_hand, new_trick) = play_human_card(&mut comm, &player, hand, trick);
    assert_eq!(new_hand, vec![Card { suit: 0, value: 2 }, Card { suit: 1, value: 5 }]);
    assert_eq!(
        new_trick.0,
        vec![Card { suit: 0, value: 4 }, Card { suit: 0, value: 9 }]
    );
}

#[test]
fn play_card_plays_exactly_one_legal_card() {
    let hand = vec![
        Card { suit: 0, value: 2 },
        Card { suit: 1, value: 5 },
        Card { suit: 0, value: 9 },
    ];
    let trick = Trick(vec![Card { suit: 0, value: 4 }]);
    let (new_hand, new_trick) = play_card(hand.clone(), trick);
    assert_eq!(new_hand.len(), 2);
    assert_eq!(new_trick.0.len(), 2);
    let played = new_trick.0[1];
    assert!(hand.contains(&played));
    assert!(!new_hand.contains(&played));
    // The hand can follow the led suit, so the played card must.
    assert_eq!(played.suit, 0);
}

#[test]
fn fallback_guess_is_always_valid() {
    assert_eq!(fallback_guess(5, &vec![2, 1], 3), 0);
    // A zero guess would make the last guesser's sum exact here.
    assert_eq!(fallback_guess(3, &vec![2, 1], 3), 1);
}

#[test]
fn rotation_moves_the_front_to_the_back() {
    let mut order: Vec<usize> = vec![0, 1, 2, 3];
    rotate_left(&mut order, 1);
    assert_eq!(order, vec![1, 2, 3, 0]);
    rotate_left(&mut order, 3);
    assert_eq!(order, vec![0, 1, 2, 3]);
    rotate_left(&mut order, 0);
    assert_eq!(order, vec![0, 1, 2, 3]);
}

#[test]
fn state_list_pairs_names_with_states() {
    let names = vec![("ann".to_string(), true), ("bot".to_string(), false)];
    let players = create_players(&names);
    let public = vec![
        PublicState { guess: Some(1), wins: 0, score: 10 },
        PublicState { guess: None, wins: 2, score: 0 },
    ];
    let list = make_state_list(&players, &public);
    assert_eq!(list.len(), 2);
    assert_eq!(list[0].0.as_str(), "ann");
    assert_eq!(list[0].1, public[0]);
    assert_eq!(list[1].0.as_str(), "bot");
    assert_eq!(list[1].1, public[1]);
}

#[test]
fn contains_index_looks_through_the_list() {
    assert!(contains_index(&vec![3, 5, 9], 5));
    assert!(!contains_index(&vec![3, 5, 9], 4));
    assert!(!contains_index(&Vec::new(), 0));
}

#[test]
fn default_round_counts() {
    assert_eq!(default_num_rounds(2), 10);
    assert_eq!(default_num_rounds(5), 10);
    assert_eq!(default_num_rounds(6), 8);
    assert_eq!(default_num_rounds(8), 6);
}

#[test]
fn client_guess_steps_away_from_exact_sums() {
    let high = vec![
        Card { suit: 0, value: 10 },
        Card { suit: 1, value: 12 },
        Card { suit: 2, value: 3 },
    ];
    // Not the last guesser: plain count of cards with value 10 or more.
    assert_eq!(make_guess(3, &high, &vec![1]), 2);
    // Last guesser and 2 + 1 == 3 would be exact: step down.
    assert_eq!(make_guess(3, &high, &vec![1, 0]), 1);
    // Last guesser with a zero count that would be exact: step up.
    let low = vec![Card { suit: 0, value: 0 }];
    assert_eq!(make_guess(3, &low, &vec![1, 0]), 1);
}

#[test]
fn client_play_picks_extremes() {
    let hand = vec![
        Card { suit: 2, value: 5 },
        Card { suit: 0, value: 9 },
        Card { suit: 3, value: 1 },
    ];
    assert_eq!(make_play(&hand, &Some(vec![0, 2]), true), 0);
    assert_eq!(make_play(&hand, &Some(vec![0, 2]), false), 2);
    // Without a restriction the position of the extreme card is picked,
    // ordered by suit then value.
    assert_eq!(make_play(&hand, &None, true), 1);
    assert_eq!(make_play(&hand, &None, false), 2);
}

#[test]
fn handshake_marker_selects_structured_framing() {
    let (structured, name) = negotiate_name("|ann");
    assert!(structured);
    assert_eq!(name.as_str(), "ann");
    let (plain, name) = negotiate_name("ann");
    assert!(!plain);
    assert_eq!(name.as_str(), "ann");
    let (empty, name) = negotiate_name("");
    assert!(!empty);
    assert_eq!(name.as_str(), "");
}

#[test]
fn full_default_game_with_four_bots() {
    let names = vec![
        ("a".to_string(), false),
        ("b".to_string(), false),
        ("c".to_string(), false),
        ("d".to_string(), false),
    ];
    let mut players = create_players(&names);
    let mut comm = Scripted::new(Vec::new());
    let rounds = default_num_rounds(players.len());
    let winners = game(&mut comm, &mut players, rounds);
    assert!(!winners.is_empty());
    assert!(winners.len() <= 4);
    // Every hand was fully played out.
    for p in &players {
        assert!(p.hand.is_empty());
    }
}

#[test]
fn trick_starts_empty() {
    assert!(plump::structs::Trick::new().0.is_empty());
    let defaulted: plump::structs::Trick = Default::default();
    assert!(defaulted.0.is_empty());
}

#[test]
fn player_clone_preserves_every_field() {
    let p = Player {
        name: PlayerName("ann".to_string()),
        human: true,
        hand: vec![Card { suit: 1, value: 4 }],
    };
    let q = p.clone();
    assert_eq!(q.name.as_str(), "ann");
    assert!(q.human);
    assert_eq!(q.hand, vec![Card { suit: 1, value: 4 }]);
}

#[test]
fn round_schedule_descends_singles_then_ascends() {
    let sets = plump::game::round_sets(3, 4);
    assert_eq!(sets, vec![3, 2, 1, 1, 1, 1, 2, 3]);
    let one_round = plump::game::round_sets(1, 2);
    assert_eq!(one_round, vec![1, 1]);
}

#[test]
fn game_leaves_the_seating_rotated_once_per_round() {
    let names = vec![
        ("a".to_string(), false),
        ("b".to_string(), false),
        ("c".to_string(), false),
    ];
    let mut players = create_players(&names);
    let mut comm = Scripted::new(Vec::new());
    game(&mut comm, &mut players, 2);
    // 2 * 2 + 3 - 2 = 5 rounds, so the seating rotated left by 5 mod 3 = 2.
    let final_names: Vec<&str> = players.iter().map(|p| p.name.as_str()).collect();
    assert_eq!(final_names, vec!["c", "a", "b"]);
}

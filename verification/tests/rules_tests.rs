use plump::cards::Card;
use plump::game::{
    determine_start_player, determine_total_winners, determine_winner, make_guess,
    playable_card_indices, score_round, validate_guess,
};
use plump::structs::{Player, PlayerName, PublicState, Trick};

#[test]
fn test_determine_winner() {
    let trick = Trick(vec![
        Card { suit: 0, value: 1 },
        Card { suit: 1, value: 10 },
        Card { suit: 0, value: 7 },
    ]);
    let winner = determine_winner(&trick);
    assert_eq!(winner, 2);
    let trick = Trick(vec![
        Card { suit: 1, value: 1 },
        Card { suit: 1, value: 10 },
        Card { suit: 0, value: 7 },
    ]);
    let winner = determine_winner(&trick);
    assert_eq!(winner, 1);
    let trick = Trick(vec![
        Card { suit: 3, value: 1 },
        Card { suit: 1, value: 10 },
        Card { suit: 0, value: 7 },
    ]);
    let winner = determine_winner(&trick);
    assert_eq!(winner, 0);
    let trick = Trick(vec![
        Card { suit: 0, value: 1 },
        Card { suit: 0, value: 10 },
        Card { suit: 0, value: 11 },
    ]);
    let winner = determine_winner(&trick);
    assert_eq!(winner, 2);
}

#[test]
fn off_suit_low_card_cannot_win() {
    let trick = Trick(vec![
        Card { suit: 0, value: 0 },
        Card { suit: 1, value: 5 },
    ]);
    assert_eq!(determine_winner(&trick), 0);
}

#[test]
fn guess_validation_last_guesser_sum_rule() {
    // Hand size 5, prior guesses [2, 1], 3 players: the last guesser must
    // not make the total exactly 5.
    assert!(!validate_guess(5, &vec![2, 1], 3, 2));
    assert!(validate_guess(5, &vec![2, 1], 3, 1));
    assert!(validate_guess(5, &vec![2, 1], 3, 3));
}

#[test]
fn guess_validation_non_final_guesser() {
    // A non-final guesser is free to make the running total match.
    assert!(validate_guess(5, &vec![2], 3, 3));
    assert!(validate_guess(5, &vec![], 3, 5));
}

#[test]
fn guess_validation_bounds() {
    assert!(!validate_guess(5, &vec![], 3, 6));
    assert!(validate_guess(5, &vec![], 3, 0));
    assert!(validate_guess(5, &vec![], 3, 5));
}

#[test]
fn scoring_exact_zero_guess_pays_ten() {
    let scored = score_round(PublicState { guess: Some(0), wins: 0, score: 5 });
    assert_eq!(scored.score, 15);
    assert_eq!(scored.wins, 0);
}

#[test]
fn scoring_exact_guess_pays_ten_per_trick() {
    let scored = score_round(PublicState { guess: Some(3), wins: 3, score: 0 });
    assert_eq!(scored.score, 30);
    assert_eq!(scored.wins, 0);
}

#[test]
fn scoring_mismatch_pays_nothing_and_resets_wins() {
    let scored = score_round(PublicState { guess: Some(2), wins: 3, score: 40 });
    assert_eq!(scored.score, 40);
    assert_eq!(scored.wins, 0);
    let unset = score_round(PublicState { guess: None, wins: 1, score: 7 });
    assert_eq!(unset.score, 7);
    assert_eq!(unset.wins, 0);
}

fn seat(name: &str) -> Player {
    Player { name: PlayerName(name.to_string()), human: false, hand: Vec::new() }
}

fn state(score: usize) -> PublicState {
    PublicState { guess: None, wins: 0, score }
}

#[test]
fn total_winners_includes_every_tie() {
    let players = vec![seat("a"), seat("b"), seat("c")];
    let public = vec![state(30), state(10), state(30)];
    assert_eq!(determine_total_winners(&players, &public), vec![0, 2]);
}

#[test]
fn total_winners_all_tied() {
    let players = vec![seat("a"), seat("b"), seat("c")];
    let public = vec![state(0), state(0), state(0)];
    assert_eq!(determine_total_winners(&players, &public), vec![0, 1, 2]);
}

#[test]
fn total_winners_single_leader() {
    let players = vec![seat("a"), seat("b")];
    let public = vec![state(10), state(50)];
    assert_eq!(determine_total_winners(&players, &public), vec![1]);
}

#[test]
fn start_player_is_first_highest_guesser() {
    assert_eq!(determine_start_player(&vec![1, 3, 3, 2]), 1);
    assert_eq!(determine_start_player(&vec![0, 0]), 0);
    assert_eq!(determine_start_player(&vec![2]), 0);
}

#[test]
fn playable_indices_follow_led_suit() {
    let hand = vec![
        Card { suit: 0, value: 2 },
        Card { suit: 1, value: 5 },
        Card { suit: 0, value: 9 },
    ];
    let trick = Trick(vec![Card { suit: 0, value: 4 }]);
    let indices = playable_card_indices(&hand, &trick).unwrap();
    assert_eq!(indices, vec![0, 2]);
}

#[test]
fn playable_indices_unrestricted_cases() {
    let hand = vec![Card { suit: 1, value: 5 }];
    let empty_trick = Trick(Vec::new());
    assert!(playable_card_indices(&hand, &empty_trick).is_none());
    let led_other = Trick(vec![Card { suit: 2, value: 4 }]);
    assert!(playable_card_indices(&hand, &led_other).is_none());
}

#[test]
fn engine_guess_counts_high_cards() {
    // Three cards of value 7 or more, no conflict with the sum rule.
    let hand = vec![
        Card { suit: 0, value: 7 },
        Card { suit: 1, value: 9 },
        Card { suit: 2, value: 12 },
        Card { suit: 3, value: 2 },
    ];
    assert_eq!(make_guess(&hand, &vec![0], 3), 3);
}

#[test]
fn engine_guess_recomputes_on_sum_conflict() {
    // Two high cards on a hand of two, last guesser, prior guesses sum 0:
    // 2 + 0 == 2 would be exact, so the stricter count (one card of value
    // 9 or more) is used instead.
    let hand = vec![Card { suit: 0, value: 7 }, Card { suit: 1, value: 9 }];
    assert_eq!(make_guess(&hand, &vec![0, 0], 3), 1);
}

use plump::cards::{create_deck, draw_hand, sort_cards, Card};

#[test]
fn helpers_test_create_deck() {
    let deck = create_deck();
    assert_eq!(deck.len(), 52);
}

#[test]
fn game_test_create_deck() {
    let deck = create_deck();
    assert!(deck.len() == 52);
}

#[test]
fn deck_holds_every_pair_once() {
    let deck = create_deck();
    for suit in 0..4 {
        for value in 0..13 {
            let matching = deck
                .iter()
                .filter(|c| c.suit == suit && c.value == value)
                .count();
            assert_eq!(matching, 1);
        }
    }
    for card in &deck {
        assert!(card.suit <= 3);
        assert!(card.value <= 12);
    }
}

#[test]
fn draw_hand_partitions_the_deck() {
    let deck = create_deck();
    let (rest, hand) = draw_hand(deck.clone(), 5);
    assert_eq!(hand.len(), 5);
    assert_eq!(rest.len(), 47);
    for card in &hand {
        assert!(deck.contains(card));
        assert!(!rest.contains(card));
    }
    for card in &rest {
        assert!(deck.contains(card));
    }
    for i in 0..hand.len() {
        for j in 0..hand.len() {
            if i != j {
                assert!(hand[i] != hand[j]);
            }
        }
    }
}

#[test]
fn draw_hand_whole_deck() {
    let deck = create_deck();
    let (rest, hand) = draw_hand(deck, 52);
    assert_eq!(hand.len(), 52);
    assert_eq!(rest.len(), 0);
}

#[test]
fn draw_hand_nothing() {
    let deck = create_deck();
    let (rest, hand) = draw_hand(deck, 0);
    assert_eq!(hand.len(), 0);
    assert_eq!(rest.len(), 52);
}

#[test]
fn drawn_hand_is_sorted() {
    let deck = create_deck();
    let (_, hand) = draw_hand(deck, 10);
    for w in hand.windows(2) {
        assert!(w[0].suit < w[1].suit || (w[0].suit == w[1].suit && w[0].value <= w[1].value));
    }
}

#[test]
fn sort_cards_orders_by_suit_then_value() {
    let cards = vec![
        Card { suit: 3, value: 0 },
        Card { suit: 0, value: 12 },
        Card { suit: 0, value: 3 },
        Card { suit: 2, value: 7 },
    ];
    let sorted = sort_cards(cards);
    assert_eq!(
        sorted,
        vec![
            Card { suit: 0, value: 3 },
            Card { suit: 0, value: 12 },
            Card { suit: 2, value: 7 },
            Card { suit: 3, value: 0 },
        ]
    );
}

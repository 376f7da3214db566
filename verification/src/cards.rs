//! The deck and dealing primitives: a 52-card deck of suit/value pairs,
//! random drawing of hands, and ordering of cards by suit then value.

use vstd::prelude::*;

verus! {

broadcast use vstd::seq_lib::group_to_multiset_ensures;

/// One playing card. `suit` ranges over 0..=3 and `value` over 0..=12
/// (value 0..=12 maps to rank 2..=Ace) for every card of a real deck;
/// the bounds are stated by [`Card::valid`] where an operation needs them.
#[derive(Clone, Copy, Debug, PartialEq, Eq, Structural)]
pub struct Card {
    pub suit: usize,
    pub value: usize,
}

impl Card {
    /// The card lies within the 4x13 deck.
    pub open spec fn valid(self) -> bool {
        self.suit < 4 && self.value < 13
    }
}

/// Ordering of cards for display: by suit first, then by value.
pub open spec fn card_le(a: Card, b: Card) -> bool {
    a.suit < b.suit || (a.suit == b.suit && a.value <= b.value)
}

/// The card a fresh deck holds at position `i`: suit-major order.
pub open spec fn deck_card(i: int) -> Card {
    Card { suit: (i / 13) as usize, value: (i % 13) as usize }
}

/// Builds the full 52-card deck: every suit/value pair exactly once,
/// in suit-major order.
pub fn create_deck() -> (deck: Vec<Card>)
    ensures
        deck@.len() == 52,
        forall|i: int| 0 <= i < 52 ==> deck@[i] == deck_card(i),
{
    let mut deck: Vec<Card> = Vec::new();
    let mut suit: usize = 0;
    while suit < 4
        invariant
            suit <= 4,
            deck@.len() == 13 * suit,
            forall|i: int| 0 <= i < deck@.len() ==> deck@[i] == deck_card(i),
        decreases 4 - suit,
    {
        let mut value: usize = 0;
        while value < 13
            invariant
                suit < 4,
                value <= 13,
                deck@.len() == 13 * suit + value,
                forall|i: int| 0 <= i < deck@.len() ==> deck@[i] == deck_card(i),
            decreases 13 - value,
        {
            deck.push(Card { suit, value });
            assert(13 * suit + value == (deck@.len() - 1) as int);
            assert((13 * (suit as int) + value) / 13 == suit && (13 * (suit as int) + value) % 13
                == value) by (nonlinear_arith)
                requires value < 13;
            value = value + 1;
        }
        suit = suit + 1;
    }
    deck
}

/// A sequence of cards ordered by suit first, then value.
pub open spec fn sorted_cards(s: Seq<Card>) -> bool {
    forall|i: int, j: int| 0 <= i < j < s.len() ==> card_le(s[i], s[j])
}

/// Compares two cards by suit first, then value.
pub fn card_le_exec(a: Card, b: Card) -> (r: bool)
    ensures
        r == card_le(a, b),
{
    a.suit < b.suit || (a.suit == b.suit && a.value <= b.value)
}

/// Sorts cards by suit first, then value: the result is ordered and holds
/// exactly the cards of the input (as a multiset).
pub fn sort_cards(cards: Vec<Card>) -> (sorted: Vec<Card>)
    ensures
        sorted_cards(sorted@),
        sorted@.to_multiset() == cards@.to_multiset(),
        sorted@.len() == cards@.len(),
{
    let mut rem = cards;
    let mut out: Vec<Card> = Vec::new();
    let ghost orig = rem@;
    while rem.len() > 0
        invariant
            out@.to_multiset().add(rem@.to_multiset()) =~= orig.to_multiset(),
            out@.len() + rem@.len() == orig.len(),
            sorted_cards(out@),
            forall|i: int, j: int|
                0 <= i < out@.len() && 0 <= j < rem@.len() ==> card_le(out@[i], rem@[j]),
        decreases rem@.len(),
    {
        let mut min: usize = 0;
        let mut k: usize = 1;
        while k < rem.len()
            invariant
                min < k,
                k <= rem@.len(),
                forall|j: int| 0 <= j < k ==> card_le(rem@[min as int], rem@[j]),
            decreases rem@.len() - k,
        {
            if card_le_exec(rem[k], rem[min]) {
                min = k;
            }
            k = k + 1;
        }
        let ghost rem0 = rem@;
        let ghost out0 = out@;
        let picked = rem.remove(min);
        out.push(picked);
        proof {
            assert(rem@ == rem0.remove(min as int));
            assert(out@ == out0.push(picked));
            assert(rem0.contains(picked));
            assert(rem0.remove(min as int).to_multiset() == rem0.to_multiset().remove(picked));
            assert(out0.push(picked).to_multiset() == out0.to_multiset().insert(picked));
            assert(rem0.to_multiset().count(picked) > 0);
            assert(out@.to_multiset().add(rem@.to_multiset()) =~= out0.to_multiset().add(
                rem0.to_multiset(),
            ));
            assert forall|i: int, j: int|
                0 <= i < out@.len() && 0 <= j < rem@.len() implies card_le(
                out@[i],
                rem@[j],
            ) by {
                assert(rem@[j] == if j < min { rem0[j] } else { rem0[j + 1] });
            }
        }
    }
    out
}

/// Relies on rand::Rng::gen_range on a thread-local generator: the result
/// of drawing from `0..bound` is always strictly below the bound.
#[verifier::external_body]
pub(crate) fn random_below(bound: usize) -> (r: usize)
    requires
        bound >= 1,
    ensures
        r < bound,
{
    rand::Rng::gen_range(&mut rand::thread_rng(), 0..bound)
}

/// Draws `num` cards at random from the deck, without replacement.
/// The drawn hand comes back sorted; together with the remaining deck it
/// holds exactly the cards the full deck held.
pub fn draw_hand(deck: Vec<Card>, num: usize) -> (r: (Vec<Card>, Vec<Card>))
    requires
        num <= deck@.len(),
    ensures
        r.0@.len() == deck@.len() - num,
        r.1@.len() == num,
        r.0@.to_multiset().add(r.1@.to_multiset()) == deck@.to_multiset(),
        sorted_cards(r.1@),
{
    let ghost orig = deck@;
    let mut rest = deck;
    let mut hand: Vec<Card> = Vec::new();
    let mut k: usize = 0;
    while k < num
        invariant
            k <= num,
            num <= orig.len(),
            rest@.len() == orig.len() - k,
            hand@.len() == k,
            rest@.to_multiset().add(hand@.to_multiset()) =~= orig.to_multiset(),
        decreases num - k,
    {
        let i = random_below(rest.len());
        let ghost rest0 = rest@;
        let ghost hand0 = hand@;
        let card = rest.remove(i);
        hand.push(card);
        proof {
            assert(rest@ == rest0.remove(i as int));
            assert(hand@ == hand0.push(card));
            assert(rest0.contains(card));
            assert(rest0.remove(i as int).to_multiset() == rest0.to_multiset().remove(card));
            assert(hand0.push(card).to_multiset() == hand0.to_multiset().insert(card));
            assert(rest0.to_multiset().count(card) > 0);
            assert(rest@.to_multiset().add(hand@.to_multiset()) =~= rest0.to_multiset().add(
                hand0.to_multiset(),
            ));
        }
        k = k + 1;
    }
    let sorted = sort_cards(hand);
    proof {
        assert(rest@.to_multiset().add(sorted@.to_multiset()) =~= orig.to_multiset());
    }
    (rest, sorted)
}

/// Splitting a duplicate-free deck into two parts (as multisets) leaves
/// each part duplicate-free, each part inside the deck, and the two parts
/// disjoint.
pub proof fn lemma_draw_partition(deck: Seq<Card>, rest: Seq<Card>, hand: Seq<Card>)
    requires
        deck.no_duplicates(),
        rest.to_multiset().add(hand.to_multiset()) == deck.to_multiset(),
    ensures
        hand.no_duplicates(),
        rest.no_duplicates(),
        forall|c: Card| hand.contains(c) ==> deck.contains(c),
        forall|c: Card| rest.contains(c) ==> deck.contains(c),
        forall|c: Card| !(hand.contains(c) && rest.contains(c)),
{
    deck.lemma_multiset_has_no_duplicates();
    assert forall|c: Card| hand.contains(c) implies deck.contains(c) by {
        assert(hand.to_multiset().count(c) > 0);
        assert(deck.to_multiset().count(c) > 0);
    }
    assert forall|c: Card| rest.contains(c) implies deck.contains(c) by {
        assert(rest.to_multiset().count(c) > 0);
        assert(deck.to_multiset().count(c) > 0);
    }
    assert forall|c: Card| !(hand.contains(c) && rest.contains(c)) by {
        if hand.contains(c) && rest.contains(c) {
            assert(deck.to_multiset().count(c) >= 2);
            assert(deck.contains(c));
        }
    }
    assert forall|c: Card| hand.to_multiset().contains(c) implies hand.to_multiset().count(c)
        == 1 by {
        assert(deck.to_multiset().count(c) == rest.to_multiset().count(c)
            + hand.to_multiset().count(c));
        assert(deck.to_multiset().contains(c));
    }
    hand.lemma_multiset_has_no_duplicates_conv();
    assert forall|c: Card| rest.to_multiset().contains(c) implies rest.to_multiset().count(c)
        == 1 by {
        assert(deck.to_multiset().count(c) == rest.to_multiset().count(c)
            + hand.to_multiset().count(c));
        assert(deck.to_multiset().contains(c));
    }
    rest.lemma_multiset_has_no_duplicates_conv();
}

/// A freshly built deck holds 52 distinct cards, every one within the
/// 4x13 suit/value grid.
pub proof fn lemma_fresh_deck_wf(deck: Seq<Card>)
    requires
        deck.len() == 52,
        forall|i: int| 0 <= i < 52 ==> deck[i] == deck_card(i),
    ensures
        deck.no_duplicates(),
        forall|i: int| 0 <= i < 52 ==> (#[trigger] deck[i]).valid(),
        forall|c: Card| deck.contains(c) ==> c.valid(),
{
    lemma_deck_cards_distinct();
    assert forall|i: int, j: int|
        0 <= i < deck.len() && 0 <= j < deck.len() && i != j implies deck[i] != deck[j] by {
        assert(deck[i] == deck_card(i));
        assert(deck[j] == deck_card(j));
    }
    assert forall|i: int| 0 <= i < 52 implies (#[trigger] deck[i]).valid() by {
        assert(deck[i] == deck_card(i));
        assert(0 <= i / 13 < 4 && 0 <= i % 13 < 13) by (nonlinear_arith)
            requires 0 <= i < 52;
    }
    assert forall|c: Card| deck.contains(c) implies c.valid() by {
        let i = choose|i: int| 0 <= i < deck.len() && deck[i] == c;
        assert(deck[i].valid());
    }
}

/// Every card of a fresh deck is distinct: positions with equal cards
/// are equal positions.
pub proof fn lemma_deck_cards_distinct()
    ensures
        forall|i: int, j: int|
            0 <= i < 52 && 0 <= j < 52 && i != j ==> deck_card(i) != deck_card(j),
{
    assert forall|i: int, j: int|
        0 <= i < 52 && 0 <= j < 52 && i != j implies deck_card(i) != deck_card(j) by {
        assert(i == 13 * (i / 13) + i % 13) by (nonlinear_arith)
            requires 0 <= i < 52;
        assert(j == 13 * (j / 13) + j % 13) by (nonlinear_arith)
            requires 0 <= j < 52;
    }
}

} // verus!

//! The automated-player policy used by programmatic clients: a stricter
//! guess heuristic than the engine's own, and a play heuristic that picks
//! an extreme card depending on whether the guess is already achieved.

use vstd::prelude::*;

use crate::cards::{card_le, card_le_exec, Card};
use crate::game::{count_ge, sum_guesses};

verus! {

/// The client guess: the number of cards of value 10 or more, stepped
/// one away (down when possible, else up) where it would make the final
/// guess sum exactly match the hand size.
pub open spec fn spec_client_guess(hand: Seq<Card>, guesses: Seq<usize>, players: int) -> int {
    let g = count_ge(hand, 10);
    if guesses.len() == players - 1 && g + sum_guesses(guesses) == hand.len() {
        if g != 0 {
            g - 1
        } else {
            g + 1
        }
    } else {
        g
    }
}

/// Computes the client guess of [`spec_client_guess`].
pub fn make_guess(players: usize, hand: &Vec<Card>, guesses: &Vec<usize>) -> (guess: usize)
    requires
        sum_guesses(guesses@) + hand@.len() <= usize::MAX,
    ensures
        guess == spec_client_guess(hand@, guesses@, players as int),
{
    proof {
        crate::game::lemma_count_ge_bound(hand@, 10);
    }
    let guess = count_high_cards(hand);
    if players >= 1 && guesses.len() == players - 1 {
        let total = sum_guesses_exec(guesses);
        if guess + total == hand.len() {
            return if guess != 0 {
                guess - 1
            } else {
                guess + 1
            };
        }
    }
    guess
}

/// Counts the cards with value 10 or more.
fn count_high_cards(hand: &Vec<Card>) -> (count: usize)
    ensures
        count == count_ge(hand@, 10),
{
    let mut count: usize = 0;
    let mut i: usize = 0;
    while i < hand.len()
        invariant
            i <= hand@.len(),
            count == count_ge(hand@.take(i as int), 10),
            count <= i,
        decreases hand@.len() - i,
    {
        proof {
            crate::game::lemma_count_ge_bound(hand@.take(i as int), 10);
            assert(hand@.take(i + 1).drop_last() =~= hand@.take(i as int));
            assert(hand@.take(i + 1).last() == hand@[i as int]);
        }
        if hand[i].value >= 10 {
            count = count + 1;
        }
        i = i + 1;
    }
    proof {
        assert(hand@.take(hand@.len() as int) =~= hand@);
    }
    count
}

/// Adds up a list of guesses.
fn sum_guesses_exec(guesses: &Vec<usize>) -> (total: usize)
    requires
        sum_guesses(guesses@) <= usize::MAX,
    ensures
        total == sum_guesses(guesses@),
{
    let mut total: usize = 0;
    let mut i: usize = 0;
    while i < guesses.len()
        invariant
            i <= guesses@.len(),
            sum_guesses(guesses@) <= usize::MAX,
            total == sum_guesses(guesses@.take(i as int)),
        decreases guesses@.len() - i,
    {
        proof {
            crate::game::lemma_sum_prefix(guesses@, i + 1);
            assert(guesses@.take(i + 1).drop_last() =~= guesses@.take(i as int));
            assert(guesses@.take(i + 1).last() == guesses@[i as int]);
        }
        total = total + guesses[i];
        i = i + 1;
    }
    proof {
        assert(guesses@.take(guesses@.len() as int) =~= guesses@);
    }
    total
}

/// The reply a client sends to a play request: with legal indices given,
/// their smallest once the guess is achieved and their largest before;
/// without, the position of the first smallest (or largest) card of the
/// hand, ordered by suit then value.
pub fn make_play(hand: &Vec<Card>, valid_cards: &Option<Vec<usize>>, guess_achieved: bool) -> (r:
    usize)
    requires
        hand@.len() >= 1,
        valid_cards matches Some(v) ==> v@.len() >= 1,
    ensures
        match valid_cards {
            Some(v) => {
                &&& v@.contains(r)
                &&& (guess_achieved ==> forall|k: int| 0 <= k < v@.len() ==> r <= #[trigger] v@[k])
                &&& (!guess_achieved ==> forall|k: int| 0 <= k < v@.len() ==> r >= #[trigger] v@[k])
            },
            None => {
                &&& r < hand@.len()
                &&& (guess_achieved ==> forall|j: int|
                    0 <= j < hand@.len() ==> card_le(hand@[r as int], #[trigger] hand@[j]))
                &&& (!guess_achieved ==> forall|j: int|
                    0 <= j < hand@.len() ==> card_le(#[trigger] hand@[j], hand@[r as int]))
                &&& (guess_achieved ==> forall|j: int|
                    0 <= j < r ==> !card_le(#[trigger] hand@[j], hand@[r as int]))
                &&& (!guess_achieved ==> forall|j: int|
                    0 <= j < r ==> !card_le(hand@[r as int], #[trigger] hand@[j]))
            },
        },
{
    match valid_cards {
        Some(choices) => {
            let mut best: usize = choices[0];
            let mut k: usize = 1;
            while k < choices.len()
                invariant
                    1 <= k <= choices@.len(),
                    choices@.len() >= 1,
                    choices@.contains(best),
                    guess_achieved ==> forall|j: int|
                        0 <= j < k ==> best <= #[trigger] choices@[j],
                    !guess_achieved ==> forall|j: int|
                        0 <= j < k ==> best >= #[trigger] choices@[j],
                decreases choices@.len() - k,
            {
                if guess_achieved {
                    if choices[k] < best {
                        best = choices[k];
                    }
                } else {
                    if choices[k] > best {
                        best = choices[k];
                    }
                }
                k = k + 1;
            }
            best
        },
        None => {
            let mut best: usize = 0;
            let mut j: usize = 1;
            while j < hand.len()
                invariant
                    best < j <= hand@.len(),
                    guess_achieved ==> forall|l: int|
                        0 <= l < j ==> card_le(hand@[best as int], #[trigger] hand@[l]),
                    !guess_achieved ==> forall|l: int|
                        0 <= l < j ==> card_le(#[trigger] hand@[l], hand@[best as int]),
                    guess_achieved ==> forall|l: int|
                        0 <= l < best ==> !card_le(#[trigger] hand@[l], hand@[best as int]),
                    !guess_achieved ==> forall|l: int|
                        0 <= l < best ==> !card_le(hand@[best as int], #[trigger] hand@[l]),
                decreases hand@.len() - j,
            {
                if guess_achieved {
                    if !card_le_exec(hand[best], hand[j]) {
                        best = j;
                    }
                } else {
                    if !card_le_exec(hand[j], hand[best]) {
                        best = j;
                    }
                }
                j = j + 1;
            }
            best
        },
    }
}

} // verus!

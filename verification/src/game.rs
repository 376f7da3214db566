//! The game rules and the round state machine: guess validation, trick
//! resolution, scoring, and the engine that drives a whole game through a
//! [`Communicator`].

use vstd::prelude::*;
use vstd::pervasive::VecAdditionalExecFns;

use crate::cards::{create_deck, draw_hand, random_below, Card};
use crate::message::Message;
use crate::structs::{clone_cards, Player, PlayerName, PublicState, StatePerPlayer, Trick};
use crate::text::parse_usize;

verus! {

broadcast use vstd::seq_lib::lemma_seq_contains_after_push;

/// The sum of a sequence of guesses.
pub open spec fn sum_guesses(s: Seq<usize>) -> int
    decreases s.len(),
{
    if s.len() == 0 {
        0
    } else {
        sum_guesses(s.drop_last()) + s.last()
    }
}

/// A prefix sum never exceeds the whole sum, and no sum is negative.
pub proof fn lemma_sum_prefix(s: Seq<usize>, i: int)
    requires
        0 <= i <= s.len(),
    ensures
        0 <= sum_guesses(s.take(i)) <= sum_guesses(s),
    decreases s.len(),
{
    if s.len() == 0 {
        assert(s.take(i) =~= s);
    } else if i == s.len() {
        assert(s.take(i) =~= s);
        lemma_sum_prefix(s.drop_last(), s.len() - 1);
        assert(s.drop_last().take(s.len() - 1) =~= s.drop_last());
    } else {
        assert(s.drop_last().take(i) =~= s.take(i));
        lemma_sum_prefix(s.drop_last(), i);
    }
}

/// The guess-validation rule: a guess for a hand of `hand_size` cards must
/// not exceed the hand size, and the last guesser of a round (the one who
/// guesses after `players - 1` others) must not make the guesses sum to
/// exactly the hand size.
pub open spec fn valid_guess(hand_size: int, guesses: Seq<usize>, players: int, guess: int) -> bool {
    &&& 0 <= guess <= hand_size
    &&& !(guesses.len() == players - 1 && guess + sum_guesses(guesses) == hand_size)
}

/// Decides the guess-validation rule of [`valid_guess`].
pub fn validate_guess(hand_size: usize, guesses: &Vec<usize>, players: usize, guess: usize) -> (r:
    bool)
    requires
        sum_guesses(guesses@) + hand_size <= usize::MAX,
    ensures
        r == valid_guess(hand_size as int, guesses@, players as int, guess as int),
{
    if guess > hand_size {
        return false;
    }
    if players >= 1 && guesses.len() == players - 1 {
        let total = sum_exec(guesses);
        if guess + total == hand_size {
            return false;
        }
    }
    true
}

/// Adds up a vector of guesses.
fn sum_exec(guesses: &Vec<usize>) -> (total: usize)
    requires
        sum_guesses(guesses@) <= usize::MAX,
    ensures
        total == sum_guesses(guesses@),
{
    let mut total: usize = 0;
    let mut i: usize = 0;
    while i < guesses.len()
        invariant
            i <= guesses@.len(),
            sum_guesses(guesses@) <= usize::MAX,
            total == sum_guesses(guesses@.take(i as int)),
        decreases guesses@.len() - i,
    {
        proof {
            lemma_sum_prefix(guesses@, i + 1);
            assert(guesses@.take(i + 1).drop_last() =~= guesses@.take(i as int));
            assert(guesses@.take(i + 1).last() == guesses@[i as int]);
        }
        total = total + guesses[i];
        i = i + 1;
    }
    proof {
        assert(guesses@.take(guesses@.len() as int) =~= guesses@);
    }
    total
}

/// How many cards of a hand have at least the given value.
pub open spec fn count_ge(hand: Seq<Card>, threshold: usize) -> int
    decreases hand.len(),
{
    if hand.len() == 0 {
        0
    } else {
        count_ge(hand.drop_last(), threshold) + if hand.last().value >= threshold {
            1int
        } else {
            0int
        }
    }
}

/// The count never exceeds the hand size, and is never negative.
pub proof fn lemma_count_ge_bound(hand: Seq<Card>, threshold: usize)
    ensures
        0 <= count_ge(hand, threshold) <= hand.len(),
    decreases hand.len(),
{
    if hand.len() > 0 {
        lemma_count_ge_bound(hand.drop_last(), threshold);
    }
}

/// Counts the cards of the hand with at least the given value.
fn count_ge_exec(hand: &Vec<Card>, threshold: usize) -> (count: usize)
    ensures
        count == count_ge(hand@, threshold),
{
    let mut count: usize = 0;
    let mut i: usize = 0;
    while i < hand.len()
        invariant
            i <= hand@.len(),
            count == count_ge(hand@.take(i as int), threshold),
            count <= i,
        decreases hand@.len() - i,
    {
        proof {
            lemma_count_ge_bound(hand@.take(i as int), threshold);
            assert(hand@.take(i + 1).drop_last() =~= hand@.take(i as int));
            assert(hand@.take(i + 1).last() == hand@[i as int]);
        }
        if hand[i].value >= threshold {
            count = count + 1;
        }
        i = i + 1;
    }
    proof {
        assert(hand@.take(hand@.len() as int) =~= hand@);
    }
    count
}

/// The guess an automated seat makes: the number of high cards (value 7
/// or more); where that breaks the validation rule, the number of very
/// high cards (value 9 or more) instead, nudged up by one when the two
/// counts coincide.
pub open spec fn spec_make_guess(hand: Seq<Card>, guesses: Seq<usize>, players: int) -> int {
    let first = count_ge(hand, 7);
    if valid_guess(hand.len() as int, guesses, players, first) {
        first
    } else {
        let second = count_ge(hand, 9);
        if second == first {
            first + 1
        } else {
            second
        }
    }
}

/// Computes the automated guess of [`spec_make_guess`]. The result is at
/// most one above the hand size.
pub fn make_guess(hand: &Vec<Card>, guesses: &Vec<usize>, players: usize) -> (guess: usize)
    requires
        sum_guesses(guesses@) + hand@.len() + 1 <= usize::MAX,
    ensures
        guess == spec_make_guess(hand@, guesses@, players as int),
        guess <= hand@.len() + 1,
{
    proof {
        lemma_count_ge_bound(hand@, 7);
        lemma_count_ge_bound(hand@, 9);
    }
    let mut guess = count_ge_exec(hand, 7);
    if !validate_guess(hand.len(), guesses, players, guess) {
        let second = count_ge_exec(hand, 9);
        if second == guess {
            guess = guess + 1;
        } else {
            guess = second;
        }
    }
    guess
}

/// Index `r` is the first position of the maximum of `s`.
pub open spec fn is_first_max(s: Seq<usize>, r: int) -> bool {
    &&& 0 <= r < s.len()
    &&& forall|i: int| 0 <= i < s.len() ==> s[i] <= s[r]
    &&& forall|i: int| 0 <= i < r ==> s[i] < s[r]
}

/// The seat that starts the first trick: the first guesser to have made
/// the strictly highest guess.
pub fn determine_start_player(guesses: &Vec<usize>) -> (r: usize)
    requires
        guesses@.len() >= 1,
    ensures
        is_first_max(guesses@, r as int),
{
    let mut best: usize = 0;
    let mut i: usize = 1;
    while i < guesses.len()
        invariant
            best < i <= guesses@.len(),
            forall|j: int| 0 <= j < i ==> guesses@[j] <= guesses@[best as int],
            forall|j: int| 0 <= j < best ==> guesses@[j] < guesses@[best as int],
        decreases guesses@.len() - i,
    {
        if guesses[i] > guesses[best] {
            best = i;
        }
        i = i + 1;
    }
    best
}

/// Position `i` of the hand holds a card of the led suit.
pub open spec fn follows_led(hand: Seq<Card>, led: usize, i: int) -> bool {
    0 <= i < hand.len() && hand[i].suit == led
}

/// The hand indices that are legal to play against the trick so far:
/// unrestricted (`None`) when the trick is empty or the hand cannot
/// follow the led suit; otherwise exactly the indices of cards in the led
/// suit, in increasing order.
pub fn playable_card_indices(hand: &Vec<Card>, trick: &crate::structs::Trick) -> (r: Option<
    Vec<usize>,
>)
    ensures
        match r {
            None => !(trick@.len() > 0 && exists|i: int| follows_led(hand@, trick@[0].suit, i)),
            Some(v) => {
                &&& trick@.len() > 0
                &&& v@.len() > 0
                &&& forall|k: int, l: int| 0 <= k < l < v@.len() ==> v@[k] < v@[l]
                &&& forall|i: usize|
                    i < hand@.len() ==> (v@.contains(i) <==> hand@[i as int].suit
                        == trick@[0].suit)
                &&& forall|k: int| 0 <= k < v@.len() ==> v@[k] < hand@.len()
            },
        },
{
    if trick.0.len() == 0 {
        return None;
    }
    let led = trick.0[0].suit;
    let mut out: Vec<usize> = Vec::new();
    let mut i: usize = 0;
    while i < hand.len()
        invariant
            i <= hand@.len(),
            trick@.len() > 0,
            led == trick@[0].suit,
            forall|k: int, l: int| 0 <= k < l < out@.len() ==> out@[k] < out@[l],
            forall|k: int| 0 <= k < out@.len() ==> out@[k] < i,
            forall|j: usize| j < i ==> (out@.contains(j) <==> hand@[j as int].suit == led),
        decreases hand@.len() - i,
    {
        let ghost out0 = out@;
        if hand[i].suit == led {
            out.push(i);
        }
        proof {
            assert forall|j: usize| j < i + 1 implies (out@.contains(j) <==> hand@[j as int].suit
                == led) by {
                if j < i {
                    assert(out0.contains(j) <==> hand@[j as int].suit == led);
                    if out@.len() > out0.len() {
                        assert(out@ == out0.push(i));
                        assert(out0.push(i).contains(j) <==> i == j || out0.contains(j));
                    }
                } else {
                    if hand@[j as int].suit == led {
                        assert(out@[out@.len() - 1] == i);
                    } else {
                        assert(forall|k: int| 0 <= k < out@.len() ==> out@[k] != j);
                    }
                }
            }
        }
        i = i + 1;
    }
    if out.len() == 0 {
        proof {
            if exists|i: int| follows_led(hand@, led, i) {
                let w = choose|i: int| follows_led(hand@, led, i);
                assert(out@.contains(w as usize));
            }
        }
        None
    } else {
        proof {
            assert(out@[0] < hand@.len());
            assert(out@.contains(out@[0]));
        }
        Some(out)
    }
}

/// Index `r` wins the trick `s`: it holds a card of the led suit whose
/// value no other led-suit card exceeds, and it is the first such card.
pub open spec fn is_trick_winner(s: Seq<Card>, r: int) -> bool {
    let led = s[0].suit;
    &&& 0 <= r < s.len()
    &&& s[r].suit == led
    &&& forall|i: int| 0 <= i < s.len() && s[i].suit == led ==> s[i].value <= s[r].value
    &&& forall|i: int| 0 <= i < r && s[i].suit == led ==> s[i].value < s[r].value
}

/// Picks the winner of a completed trick: the position of the
/// highest-valued card among the cards of the led suit. Cards of other
/// suits cannot win.
pub fn determine_winner(trick: &crate::structs::Trick) -> (r: usize)
    requires
        trick@.len() >= 1,
    ensures
        is_trick_winner(trick@, r as int),
{
    let cards = &trick.0;
    let led = cards[0].suit;
    let mut best: usize = 0;
    let mut i: usize = 1;
    while i < cards.len()
        invariant
            best < i <= cards@.len(),
            led == cards@[0].suit,
            cards@[best as int].suit == led,
            forall|j: int|
                0 <= j < i && cards@[j].suit == led ==> cards@[j].value
                    <= cards@[best as int].value,
            forall|j: int|
                0 <= j < best && cards@[j].suit == led ==> cards@[j].value
                    < cards@[best as int].value,
        decreases cards@.len() - i,
    {
        if cards[i].suit == led && cards[i].value > cards[best].value {
            best = i;
        }
        i = i + 1;
    }
    best
}

/// The points a seat earns for the round just played: `max(10 * guess,
/// 10)` when the guess matched the wins exactly (so a correct guess of 0
/// still pays 10), and nothing otherwise.
pub open spec fn round_score(p: PublicState) -> int {
    match p.guess {
        Some(g) => if p.wins == g {
            if 10 * g > 10 {
                10 * g
            } else {
                10
            }
        } else {
            0
        },
        None => 0,
    }
}

/// Applies end-of-round scoring to one seat: the round points of
/// [`round_score`] are added to the cumulative score and the win counter
/// resets to zero. The guess is left in place.
pub fn score_round(player: PublicState) -> (r: PublicState)
    requires
        player.score + round_score(player) <= usize::MAX,
    ensures
        r.score == player.score + round_score(player),
        r.wins == 0,
        r.guess == player.guess,
{
    let mut p = player;
    match p.guess {
        Some(g) => {
            if g == p.wins {
                let gain: usize = if g == 0 {
                    10
                } else {
                    10 * g
                };
                p.score = p.score + gain;
            }
        },
        None => {},
    }
    p.wins = 0;
    p
}

/// The highest cumulative score in a public-state list (0 for an empty
/// list, matching that scores cannot be negative).
pub open spec fn max_score(s: Seq<PublicState>) -> int
    decreases s.len(),
{
    if s.len() == 0 {
        0
    } else {
        let m = max_score(s.drop_last());
        if s.last().score >= m {
            s.last().score as int
        } else {
            m
        }
    }
}

/// No score in a list exceeds the list's maximum score.
pub proof fn lemma_max_score_bound(s: Seq<PublicState>, j: int)
    requires
        0 <= j < s.len(),
    ensures
        s[j].score <= max_score(s),
    decreases s.len(),
{
    if j < s.len() - 1 {
        lemma_max_score_bound(s.drop_last(), j);
    }
}

/// Picks every seat whose cumulative score equals the maximum: all ties
/// are included. The result lists seat indices in increasing order and is
/// never empty for a non-empty table.
pub fn determine_total_winners(players: &Vec<Player>, public: &Vec<PublicState>) -> (winners: Vec<
    usize,
>)
    requires
        players@.len() == public@.len(),
    ensures
        forall|i: usize|
            i < public@.len() ==> (winners@.contains(i) <==> public@[i as int].score == max_score(
                public@,
            )),
        forall|k: int, l: int| 0 <= k < l < winners@.len() ==> winners@[k] < winners@[l],
        forall|k: int| 0 <= k < winners@.len() ==> winners@[k] < public@.len(),
        public@.len() > 0 ==> winners@.len() > 0,
{
    let mut winners: Vec<usize> = Vec::new();
    let mut high: usize = 0;
    let mut i: usize = 0;
    while i < public.len()
        invariant
            i <= public@.len(),
            high == if i == 0 {
                0int
            } else {
                max_score(public@.take(i as int))
            },
            i > 0 ==> winners@.len() > 0,
            forall|k: int, l: int| 0 <= k < l < winners@.len() ==> winners@[k] < winners@[l],
            forall|k: int| 0 <= k < winners@.len() ==> winners@[k] < i,
            forall|j: usize| j < i ==> (winners@.contains(j) <==> public@[j as int].score == high),
        decreases public@.len() - i,
    {
        proof {
            assert(public@.take(i + 1).drop_last() =~= public@.take(i as int));
            assert(public@.take(i + 1).last() == public@[i as int]);
            assert forall|j: int| 0 <= j < i implies public@[j].score <= high by {
                lemma_max_score_bound(public@.take(i as int), j);
                assert(public@.take(i as int)[j] == public@[j]);
            }
        }
        let ghost winners0 = winners@;
        let score = public[i].score;
        if score > high {
            high = score;
            winners.clear();
            winners.push(i);
        } else if score == high {
            winners.push(i);
        }
        proof {
            assert forall|j: usize| j < i + 1 implies (winners@.contains(j)
                <==> public@[j as int].score == high) by {
                if winners@.len() > 0 && winners@.last() == i && j == i {
                    assert(winners@.contains(j));
                } else if j < i {
                    if score > high {
                    } else {
                        if winners@.len() > winners0.len() {
                            assert(winners@ == winners0.push(i));
                            assert(winners0.push(i).contains(j) <==> i == j || winners0.contains(
                                j,
                            ));
                        }
                    }
                } else {
                    if public@[j as int].score != high {
                        assert(forall|k: int|
                            0 <= k < winners@.len() ==> winners@[k] != j);
                    }
                }
            }
            let s1 = public@.take(i + 1);
            assert(s1.len() == i + 1);
            assert(max_score(s1) == if s1.last().score >= max_score(s1.drop_last()) {
                s1.last().score as int
            } else {
                max_score(s1.drop_last())
            });
            if i == 0 {
                assert(public@.take(0int) =~= Seq::<PublicState>::empty());
                assert(max_score(Seq::<PublicState>::empty()) == 0);
            }
        }
        i = i + 1;
    }
    proof {
        if public@.len() > 0 {
            assert(public@.take(public@.len() as int) =~= public@);
        }
    }
    winners
}

/// Builds the starting roster: one seat per name, in the given order,
/// each with the given human flag and an empty hand.
pub fn create_players(player_names: &Vec<(String, bool)>) -> (players: Vec<Player>)
    ensures
        players@.len() == player_names@.len(),
        forall|i: int|
            0 <= i < players@.len() ==> {
                &&& (#[trigger] players@[i])@.name == player_names@[i].0@
                &&& players@[i]@.human == player_names@[i].1
                &&& players@[i]@.hand.len() == 0
            },
{
    let mut players: Vec<Player> = Vec::new();
    let mut i: usize = 0;
    while i < player_names.len()
        invariant
            i <= player_names@.len(),
            players@.len() == i,
            forall|j: int|
                0 <= j < i ==> {
                    &&& (#[trigger] players@[j])@.name == player_names@[j].0@
                    &&& players@[j]@.human == player_names@[j].1
                    &&& players@[j]@.hand.len() == 0
                },
        decreases player_names@.len() - i,
    {
        let name = player_names[i].0.clone();
        let human = player_names[i].1;
        players.push(Player { name: PlayerName(name), human, hand: Vec::new() });
        i = i + 1;
    }
    players
}

/// The engine's only channel to the players: addressed reads and writes
/// by player name, broadcasts, and a blocking wait for a replacement
/// stream when a player's connection has failed. Implementations own the
/// sockets; the engine is verified for every implementation.
pub trait Communicator {
    /// Sends `prompt` to the named player, then blocks until one reply
    /// line has been received (retrying through reconnects as needed).
    fn read(&mut self, player: &PlayerName, prompt: Message) -> String;

    /// Delivers the message to every registered player.
    fn write_to_all(&mut self, text: Message);

    /// Delivers the message to exactly one player.
    fn write_to_one(&mut self, player: &PlayerName, text: Message);

    /// Blocks until a replacement stream for the named player has been
    /// swapped in, preserving the session's framing mode.
    fn wait_for_reconnect(&mut self, player: &str);
}

/// Whether the named index is in the list.
pub fn contains_index(v: &Vec<usize>, x: usize) -> (r: bool)
    ensures
        r == v@.contains(x),
{
    let mut i: usize = 0;
    while i < v.len()
        invariant
            i <= v@.len(),
            forall|j: int| 0 <= j < i ==> v@[j] != x,
        decreases v@.len() - i,
    {
        if v[i] == x {
            return true;
        }
        i = i + 1;
    }
    false
}

/// Copies a list of indices element by element.
pub fn copy_indices(v: &Vec<usize>) -> (r: Vec<usize>)
    ensures
        r@ == v@,
{
    let mut out: Vec<usize> = Vec::new();
    let mut i: usize = 0;
    while i < v.len()
        invariant
            i <= v@.len(),
            out@ == v@.take(i as int),
        decreases v@.len() - i,
    {
        out.push(v[i]);
        proof {
            assert(out@ =~= v@.take(i + 1));
        }
        i = i + 1;
    }
    proof {
        assert(out@ =~= v@);
    }
    out
}

/// Rotates the vector left by `k` places: element `k` moves to the
/// front, the first `k` elements move to the back in order.
pub fn rotate_left<T>(v: &mut Vec<T>, k: usize)
    requires
        k <= old(v)@.len(),
    ensures
        final(v)@ == old(v)@.skip(k as int) + old(v)@.take(k as int),
{
    let ghost orig = v@;
    let mut j: usize = 0;
    while j < k
        invariant
            j <= k,
            k <= orig.len(),
            v@.len() == orig.len(),
            v@ == orig.skip(j as int) + orig.take(j as int),
        decreases k - j,
    {
        let x = v.remove(0);
        v.push(x);
        proof {
            assert(v@ =~= orig.skip(j + 1) + orig.take(j + 1));
        }
        j = j + 1;
    }
    proof {
        assert(v@ =~= orig.skip(k as int) + orig.take(k as int));
    }
}

/// Pairs every seat's name with its public state, in seating order.
pub fn make_state_list(players: &Vec<Player>, public: &Vec<PublicState>) -> (r: StatePerPlayer)
    requires
        players@.len() == public@.len(),
    ensures
        r@.len() == players@.len(),
        forall|i: int|
            0 <= i < r@.len() ==> (#[trigger] r@[i]).0@ == players@[i]@.name && r@[i].1
                == public@[i],
{
    let mut out: StatePerPlayer = Vec::new();
    let mut i: usize = 0;
    while i < players.len()
        invariant
            i <= players@.len(),
            players@.len() == public@.len(),
            out@.len() == i,
            forall|j: int|
                0 <= j < i ==> (#[trigger] out@[j]).0@ == players@[j]@.name && out@[j].1
                    == public@[j],
        decreases players@.len() - i,
    {
        out.push((players[i].name.clone(), public[i]));
        i = i + 1;
    }
    out
}

/// Copies a roster element by element, preserving every seat's value.
pub fn clone_players(players: &Vec<Player>) -> (r: Vec<Player>)
    ensures
        r@.len() == players@.len(),
        forall|i: int| 0 <= i < r@.len() ==> (#[trigger] r@[i])@ == players@[i]@,
{
    let mut out: Vec<Player> = Vec::new();
    let mut i: usize = 0;
    while i < players.len()
        invariant
            i <= players@.len(),
            out@.len() == i,
            forall|j: int| 0 <= j < i ==> (#[trigger] out@[j])@ == players@[j]@,
        decreases players@.len() - i,
    {
        out.push(players[i].clone());
        i = i + 1;
    }
    out
}

/// The number of descending rounds a game opens with: ten for small
/// tables, and otherwise as many as the deck can deal evenly.
pub fn default_num_rounds(num_players: usize) -> (r: usize)
    requires
        num_players >= 1,
    ensures
        r == if num_players < 6 {
            10int
        } else {
            52int / num_players as int
        },
{
    if num_players < 6 {
        10
    } else {
        52 / num_players
    }
}

/// How often a prompt is re-sent after invalid replies before the seat
/// is played automatically. One reply per attempt makes the budget
/// unreachable in any real session.
pub const MAX_PROMPT_ATTEMPTS: usize = usize::MAX;

/// A guess the validation rule is sure to accept: zero, or one where the
/// sum rule forbids exactly zero.
pub fn fallback_guess(hand_size: usize, guesses: &Vec<usize>, players: usize) -> (guess: usize)
    requires
        hand_size >= 1,
        sum_guesses(guesses@) + hand_size <= usize::MAX,
    ensures
        valid_guess(hand_size as int, guesses@, players as int, guess as int),
{
    if validate_guess(hand_size, guesses, players, 0) {
        0
    } else {
        1
    }
}

/// Prompts the named human player for a guess and re-prompts on every
/// reply that is not an integer the validation rule accepts. Only when a
/// session somehow exhausts the whole attempt budget is the seat guessed
/// automatically, still within the rule.
pub fn request_guess<C: Communicator>(
    communicator: &mut C,
    player: &Player,
    hand: &Vec<Card>,
    guesses: &Vec<usize>,
    players: usize,
) -> (guess: usize)
    requires
        hand@.len() >= 1,
        sum_guesses(guesses@) + hand@.len() <= usize::MAX,
    ensures
        valid_guess(hand@.len() as int, guesses@, players as int, guess as int),
{
    communicator.write_to_one(
        &player.name,
        Message::RequestGuessContext {
            player: player.clone(),
            hand: clone_cards(hand),
            guesses: copy_indices(guesses),
            players,
        },
    );
    let mut attempts: usize = 0;
    while attempts < MAX_PROMPT_ATTEMPTS
        invariant
            hand@.len() >= 1,
            sum_guesses(guesses@) + hand@.len() <= usize::MAX,
        decreases MAX_PROMPT_ATTEMPTS - attempts,
    {
        let text = communicator.read(&player.name, Message::RequestGuess);
        if let Some(guess) = parse_usize(text.as_str()) {
            if validate_guess(hand.len(), guesses, players, guess) {
                return guess;
            }
        }
        attempts = attempts + 1;
    }
    fallback_guess(hand.len(), guesses, players)
}

/// Index `idx` is a play the rules allow: within the hand, and following
/// the led suit whenever the hand can follow it.
pub open spec fn legal_play_index(hand: Seq<Card>, trick: Seq<Card>, idx: int) -> bool {
    &&& 0 <= idx < hand.len()
    &&& (trick.len() > 0 && (exists|j: int| follows_led(hand, trick[0].suit, j)) ==> hand[idx].suit
        == trick[0].suit)
}

/// The hand and trick after a card was played: one legally chosen card
/// left the hand and was appended to the trick.
pub open spec fn played_card(
    hand: Seq<Card>,
    trick: Seq<Card>,
    new_hand: Seq<Card>,
    new_trick: Seq<Card>,
) -> bool {
    exists|idx: int|
        {
            &&& legal_play_index(hand, trick, idx)
            &&& new_hand == hand.remove(idx)
            &&& new_trick == trick.push(hand[idx])
        }
}

/// Prompts the named human player for a card and re-prompts on every
/// reply that is not the index of a currently legal card; that card then
/// moves from the hand to the trick. Only when a session somehow
/// exhausts the whole attempt budget is the first legal card played.
pub fn play_human_card<C: Communicator>(
    communicator: &mut C,
    player: &Player,
    hand: Vec<Card>,
    trick: Trick,
) -> (r: (Vec<Card>, Trick))
    requires
        hand@.len() >= 1,
    ensures
        played_card(hand@, trick@, r.0@, r.1@),
{
    let ghost hand0 = hand@;
    let ghost trick0 = trick@;
    let valid_cards = playable_card_indices(&hand, &trick);
    communicator.write_to_all(Message::Turn { whose: player.clone() });
    communicator.write_to_one(
        &player.name,
        Message::PlayRequestContext {
            player: player.clone(),
            hand: clone_cards(&hand),
            trick: trick.clone(),
            valid_cards: match &valid_cards {
                Some(v) => Some(copy_indices(v)),
                None => None,
            },
        },
    );
    let mut attempts: usize = 0;
    let mut chosen: Option<usize> = None;
    let hand_len = hand.len();
    while chosen.is_none() && attempts < MAX_PROMPT_ATTEMPTS
        invariant
            hand0.len() >= 1,
            hand_len == hand0.len(),
            match chosen {
                Some(i) => i < hand0.len() && (match valid_cards {
                    Some(v) => v@.contains(i),
                    None => true,
                }),
                None => true,
            },
        decreases MAX_PROMPT_ATTEMPTS - attempts,
    {
        let text = communicator.read(&player.name, Message::PlayRequest(player.clone()));
        if let Some(index) = parse_usize(text.as_str()) {
            if index < hand_len {
                let allowed = match &valid_cards {
                    Some(valid) => contains_index(valid, index),
                    None => true,
                };
                if allowed {
                    chosen = Some(index);
                }
            }
        }
        attempts = attempts + 1;
    }
    let index: usize;
    match chosen {
        Some(i) => {
            index = i;
        },
        None => {
            match &valid_cards {
                Some(v) => {
                    index = v[0];
                    proof {
                        assert(v@.contains(v@[0]));
                    }
                },
                None => {
                    index = 0;
                },
            }
        },
    }
    let mut hand = hand;
    let mut trick = trick;
    proof {
        assert(legal_play_index(hand0, trick0, index as int));
    }
    let card = hand.remove(index);
    trick.0.push(card);
    proof {
        let idx = index as int;
        assert(legal_play_index(hand0, trick0, idx) && hand@ == hand0.remove(idx) && trick@
            == trick0.push(hand0[idx]));
        assert(played_card(hand0, trick0, hand@, trick@));
    }
    (hand, trick)
}

/// Plays one card for an automated seat: a random choice among the
/// currently legal cards.
pub fn play_card(hand: Vec<Card>, trick: Trick) -> (r: (Vec<Card>, Trick))
    requires
        hand@.len() >= 1,
    ensures
        played_card(hand@, trick@, r.0@, r.1@),
{
    let ghost hand0 = hand@;
    let ghost trick0 = trick@;
    let valid_cards = playable_card_indices(&hand, &trick);
    let index: usize;
    match &valid_cards {
        Some(v) => {
            let k = random_below(v.len());
            index = v[k];
            proof {
                assert(v@.contains(v@[k as int]));
            }
        },
        None => {
            index = random_below(hand.len());
        },
    }
    let mut hand = hand;
    let mut trick = trick;
    proof {
        assert(legal_play_index(hand0, trick0, index as int));
    }
    let card = hand.remove(index);
    trick.0.push(card);
    (hand, trick)
}

/// The sequence is an ordering of the seats `0..n`: each appears once.
pub open spec fn is_seat_order(order: Seq<usize>, n: int) -> bool {
    &&& order.len() == n
    &&& forall|k: int| 0 <= k < n ==> (#[trigger] order[k]) < n
    &&& forall|k: int, l: int| 0 <= k < l < n ==> order[k] != order[l]
}

/// Rotating a seat order gives a seat order.
proof fn lemma_rotation_order(a: Seq<usize>, b: Seq<usize>, k: int, n: int)
    requires
        is_seat_order(a, n),
        0 <= k <= n,
        b == a.skip(k) + a.take(k),
    ensures
        is_seat_order(b, n),
{
    assert forall|j: int| 0 <= j < n implies (#[trigger] b[j]) < n by {
        if j < n - k {
            assert(b[j] == a[j + k]);
        } else {
            assert(b[j] == a[j - (n - k)]);
        }
    }
    assert forall|j: int, l: int| 0 <= j < l < n implies b[j] != b[l] by {
        let pj = if j < n - k {
            j + k
        } else {
            j - (n - k)
        };
        let pl = if l < n - k {
            l + k
        } else {
            l - (n - k)
        };
        assert(b[j] == a[pj]);
        assert(b[l] == a[pl]);
        assert(pj != pl);
    }
}

/// Every seat index appears somewhere in a seat order: an ordering of
/// `n` distinct values below `n` covers all of them.
proof fn lemma_seat_order_onto(order: Seq<usize>, n: int, v: int)
    requires
        is_seat_order(order, n),
        0 <= v < n,
    ensures
        exists|k: int| 0 <= k < n && (#[trigger] order[k]) as int == v,
{
    let f = |x: usize| x as int;
    let iorder = order.map_values(f);
    assert(vstd::relations::injective(f));
    assert(order.no_duplicates()) by {
        assert forall|i: int, j: int| 0 <= i < j < order.len() implies order[i] != order[j] by {}
    }
    order.lemma_no_duplicates_injective(f);
    iorder.unique_seq_to_set();
    let range = vstd::set_lib::set_int_range(0, n);
    assert(iorder.to_set().subset_of(range)) by {
        assert forall|x: int| iorder.to_set().contains(x) implies range.contains(x) by {
            assert(iorder.contains(x));
            let k = choose|k: int| 0 <= k < iorder.len() && iorder[k] == x;
            assert(iorder[k] == f(order[k]));
            assert(order[k] < n);
        }
    }
    vstd::set_lib::lemma_int_range(0, n);
    vstd::set_lib::lemma_len_subset(iorder.to_set(), range);
    vstd::set_lib::lemma_subset_equality(iorder.to_set(), range);
    assert(range.contains(v));
    assert(iorder.to_set().contains(v));
    assert(iorder.contains(v));
    let k = choose|k: int| 0 <= k < iorder.len() && iorder[k] == v;
    assert(iorder[k] == f(order[k]));
    assert(0 <= k < n && order[k] as int == v);
}

/// The identity of each seat: its name and whether a human answers, in
/// seating order.
pub open spec fn roster(s: Seq<Player>) -> Seq<(Seq<char>, bool)> {
    s.map_values(|p: Player| (p@.name, p@.human))
}

/// How far the seating has rotated left when the game ends: one place
/// per round of the schedule, wrapped around the table.
pub open spec fn seat_rotation(num_rounds: int, players: int) -> int {
    (2 * num_rounds + players - 2) % players
}

/// Rotating left by one after a rotation by `jj` is a rotation by
/// `jj + 1`, wrapping back to the original order after a full turn.
proof fn lemma_rotation_compose<T>(a: Seq<T>, jj: int)
    requires
        0 <= jj < a.len(),
    ensures
        (a.skip(jj) + a.take(jj)).skip(1) + (a.skip(jj) + a.take(jj)).take(1) =~= a.skip(
            if jj + 1 == a.len() {
                0int
            } else {
                jj + 1
            },
        ) + a.take(
            if jj + 1 == a.len() {
                0int
            } else {
                jj + 1
            },
        ),
{
}

/// Adding one more round steps the rotation offset by one place.
proof fn lemma_rotation_mod_step(r: int, n: int)
    requires
        n >= 2,
        r >= 0,
    ensures
        (r + 1) % n == if r % n + 1 == n {
            0int
        } else {
            r % n + 1
        },
{
    vstd::arithmetic::div_mod::lemma_mod_division_less_than_divisor(r, n);
    vstd::arithmetic::div_mod::lemma_add_mod_noop(r, 1, n);
    vstd::arithmetic::div_mod::lemma_small_mod(1nat, n as nat);
    let jj = r % n;
    if jj + 1 < n {
        vstd::arithmetic::div_mod::lemma_small_mod((jj + 1) as nat, n as nat);
    } else {
        vstd::arithmetic::div_mod::lemma_mod_self_0(n);
    }
}

/// Builds the round schedule: hand sizes descending from `num_rounds` to
/// 1, then one single-card round per player beyond the first, then
/// ascending from 2 back to `num_rounds`.
pub fn round_sets(num_rounds: usize, num_players: usize) -> (sets: Vec<usize>)
    requires
        1 <= num_rounds < usize::MAX,
        num_players >= 1,
    ensures
        sets@.len() == 2 * num_rounds + num_players - 2,
        forall|i: int| 0 <= i < num_rounds ==> #[trigger] sets@[i] == num_rounds - i,
        forall|i: int|
            num_rounds <= i < num_rounds + num_players - 1 ==> #[trigger] sets@[i] == 1,
        forall|i: int|
            num_rounds + num_players - 1 <= i < sets@.len() ==> #[trigger] sets@[i] == i - (
            num_rounds + num_players - 1) + 2,
{
    let mut sets: Vec<usize> = Vec::new();
    let mut k: usize = 0;
    while k < num_rounds
        invariant
            k <= num_rounds,
            sets@.len() == k,
            forall|i: int| 0 <= i < k ==> #[trigger] sets@[i] == num_rounds - i,
        decreases num_rounds - k,
    {
        sets.push(num_rounds - k);
        k = k + 1;
    }
    let mut k: usize = 1;
    while k < num_players
        invariant
            1 <= k <= num_players,
            num_rounds >= 1,
            sets@.len() == num_rounds + k - 1,
            forall|i: int| 0 <= i < num_rounds ==> #[trigger] sets@[i] == num_rounds - i,
            forall|i: int| num_rounds <= i < num_rounds + k - 1 ==> #[trigger] sets@[i] == 1,
        decreases num_players - k,
    {
        sets.push(1);
        k = k + 1;
    }
    let mut k: usize = 2;
    while k <= num_rounds
        invariant
            2 <= k <= num_rounds + 1,
            num_players >= 1,
            1 <= num_rounds < usize::MAX,
            sets@.len() == num_rounds + num_players - 1 + k - 2,
            forall|i: int| 0 <= i < num_rounds ==> #[trigger] sets@[i] == num_rounds - i,
            forall|i: int|
                num_rounds <= i < num_rounds + num_players - 1 ==> #[trigger] sets@[i] == 1,
            forall|i: int|
                num_rounds + num_players - 1 <= i < sets@.len() ==> #[trigger] sets@[i] == i - (
                num_rounds + num_players - 1) + 2,
        decreases num_rounds + 1 - k,
    {
        sets.push(k);
        k = k + 1;
    }
    sets
}

/// Runs one whole game: for every hand size of the schedule (descending
/// from `num_rounds` to 1, one single-card round per extra player, then
/// ascending back to `num_rounds`), deals a fresh deck, collects guesses
/// in seating order, plays out the tricks, applies the scoring, and
/// rotates the seating; finally broadcasts and returns the seats with the
/// highest cumulative score, in increasing order, ties included.
pub fn game<C: Communicator>(
    communicator: &mut C,
    players: &mut Vec<Player>,
    num_rounds: usize,
) -> (winners: Vec<usize>)
    requires
        old(players)@.len() >= 2,
        num_rounds >= 1,
        num_rounds * old(players)@.len() <= 52,
    ensures
        final(players)@.len() == old(players)@.len(),
        roster(final(players)@) == roster(old(players)@).skip(
            seat_rotation(num_rounds as int, old(players)@.len() as int),
        ) + roster(old(players)@).take(
            seat_rotation(num_rounds as int, old(players)@.len() as int),
        ),
        roster(final(players)@).to_multiset() == roster(old(players)@).to_multiset(),
        forall|i: int|
            0 <= i < final(players)@.len() ==> (#[trigger] final(players)@[i])@.hand.len() == 0,
        winners@.len() > 0,
        forall|k: int| 0 <= k < winners@.len() ==> (#[trigger] winners@[k]) < final(players)@.len(),
        forall|k: int, l: int| 0 <= k < l < winners@.len() ==> winners@[k] < winners@[l],
{
    let ghost ros0 = roster(old(players)@);
    let n = players.len();
    proof {
        assert(num_rounds <= 26 && n <= 52) by (nonlinear_arith)
            requires
                num_rounds * n <= 52,
                n >= 2,
                num_rounds >= 1,
        ;
    }
    let sets = round_sets(num_rounds, n);
    proof {
        assert forall|i: int|
            0 <= i < sets@.len() implies 1 <= #[trigger] sets@[i] <= num_rounds by {
            if i < num_rounds {
                assert(sets@[i] == num_rounds - i);
            } else if i < num_rounds + n - 1 {
                assert(sets@[i] == 1);
            } else {
                assert(sets@[i] == i - (num_rounds + n - 1) + 2);
            }
        }
    }
    let mut public: Vec<PublicState> = Vec::new();
    let mut k: usize = 0;
    while k < n
        invariant
            k <= n,
            public@.len() == k,
            forall|i: int|
                0 <= i < k ==> (#[trigger] public@[i]) == (PublicState {
                    guess: None,
                    wins: 0,
                    score: 0,
                }),
        decreases n - k,
    {
        public.push(PublicState { guess: None, wins: 0, score: 0 });
        k = k + 1;
    }
    proof {
        vstd::arithmetic::div_mod::lemma_small_mod(0nat, n as nat);
        assert(ros0.len() == n);
        assert(ros0.skip(0int) + ros0.take(0int) =~= ros0);
    }
    let mut r: usize = 0;
    while r < sets.len()
        invariant
            players@.len() == n,
            public@.len() == n,
            ros0.len() == n,
            roster(players@) == ros0.skip((r as int) % (n as int)) + ros0.take(
                (r as int) % (n as int),
            ),
            2 <= n <= 52,
            1 <= num_rounds <= 26,
            num_rounds * n <= 52,
            sets@.len() == 2 * num_rounds + n - 2,
            sets@.len() <= 104,
            r <= sets@.len(),
            r > 0 ==> forall|i: int|
                0 <= i < n ==> (#[trigger] players@[i])@.hand.len() == 0,
            forall|i: int| 0 <= i < sets@.len() ==> 1 <= #[trigger] sets@[i] <= num_rounds,
            forall|i: int| 0 <= i < n ==> (#[trigger] public@[i]).score <= 540 * r,
            forall|i: int| 0 <= i < n ==> (#[trigger] public@[i]).wins == 0,
        decreases sets@.len() - r,
    {
        let set = sets[r];
        proof {
            assert(set * n <= 52) by (nonlinear_arith)
                requires
                    1 <= set <= num_rounds,
                    num_rounds * n <= 52,
                    n >= 2,
                    num_rounds >= 1,
            ;
        }
        let mut deck = create_deck();
        proof {
            crate::cards::lemma_fresh_deck_wf(deck@);
        }
        let mut prev_guesses: Vec<usize> = Vec::new();
        let mut gi: usize = 0;
        while gi < n
            invariant
                gi <= n,
                players@.len() == n,
                public@.len() == n,
                roster(players@) == ros0.skip((r as int) % (n as int)) + ros0.take(
                (r as int) % (n as int),
            ),
                2 <= n <= 52,
                1 <= set <= 52,
                set * n <= 52,
                deck@.len() == 52 - set * gi,
                prev_guesses@.len() == gi,
                sum_guesses(prev_guesses@) <= (set + 1) * gi,
                forall|i: int| 0 <= i < n ==> (#[trigger] public@[i]).score <= 540 * r,
                forall|i: int| 0 <= i < n ==> (#[trigger] public@[i]).wins == 0,
                forall|j: int|
                    0 <= j < gi ==> ((#[trigger] public@[j]).guess matches Some(g) && g <= 53),
                forall|j: int| 0 <= j < gi ==> (#[trigger] players@[j])@.hand.len() == set,
            decreases n - gi,
        {
            proof {
                assert(set * (gi + 1) <= set * n) by (nonlinear_arith)
                    requires
                        gi + 1 <= n,
                        set >= 0,
                ;
                assert(set * (gi + 1) == set * gi + set) by (nonlinear_arith);
                assert((set + 1) * gi + (set + 1) == (set + 1) * (gi + 1)) by (nonlinear_arith);
                assert((set + 1) * gi <= 53 * 52) by (nonlinear_arith)
                    requires
                        0 <= set <= 52,
                        0 <= gi <= 52,
                ;
            }
            let (rest, hand) = draw_hand(deck, set);
            deck = rest;
            communicator.write_to_all(Message::Turn { whose: players[gi].clone() });
            let guess = if players[gi].human {
                request_guess(communicator, &players[gi], &hand, &prev_guesses, n)
            } else {
                make_guess(&hand, &prev_guesses, n)
            };
            let st = public[gi];
            public.set(gi, PublicState { guess: Some(guess), wins: st.wins, score: st.score });
            let name = players[gi].name.clone();
            let human = players[gi].human;
            let ghost pv = players@;
            players.set(gi, Player { name, human, hand });
            proof {
                assert(roster(players@) =~= roster(pv));
            }
            let ghost old_guesses = prev_guesses@;
            prev_guesses.push(guess);
            proof {
                assert(prev_guesses@.drop_last() =~= old_guesses);
                assert(sum_guesses(prev_guesses@) == sum_guesses(old_guesses) + guess);
            }
            gi = gi + 1;
        }
        communicator.write_to_all(Message::Guesses { state: make_state_list(players, &public) });
        let start = determine_start_player(&prev_guesses);
        let mut order: Vec<usize> = Vec::new();
        let mut k: usize = 0;
        while k < n
            invariant
                k <= n,
                order@.len() == k,
                forall|j: int| 0 <= j < k ==> (#[trigger] order@[j]) == j,
            decreases n - k,
        {
            order.push(k);
            k = k + 1;
        }
        let ghost ident = order@;
        rotate_left(&mut order, start);
        proof {
            lemma_rotation_order(ident, order@, start as int, n as int);
        }
        while players[order[0]].hand.len() > 0
            invariant
                players@.len() == n,
                public@.len() == n,
                roster(players@) == ros0.skip((r as int) % (n as int)) + ros0.take(
                (r as int) % (n as int),
            ),
                2 <= n <= 52,
                1 <= set <= 52,
                is_seat_order(order@, n as int),
                forall|k: int, l: int|
                    0 <= k < n && 0 <= l < n ==> players@[order@[k] as int]@.hand.len()
                        == players@[order@[l] as int]@.hand.len(),
                players@[order@[0] as int]@.hand.len() <= set,
                forall|i: int|
                    0 <= i < n ==> (#[trigger] public@[i]).wins + players@[order@[0] as
                        int]@.hand.len() <= set,
                forall|i: int|
                    0 <= i < n ==> ((#[trigger] public@[i]).guess matches Some(g) && g <= 53),
                forall|i: int| 0 <= i < n ==> (#[trigger] public@[i]).score <= 540 * r,
            decreases players@[order@[0] as int]@.hand.len(),
        {
            let mut trick = Trick::new();
            let ghost h0 = players@[order@[0] as int]@.hand.len() as int;
            let mut t: usize = 0;
            while t < n
                invariant
                    t <= n,
                    players@.len() == n,
                    public@.len() == n,
                    roster(players@) == ros0.skip((r as int) % (n as int)) + ros0.take(
                (r as int) % (n as int),
            ),
                    2 <= n <= 52,
                    1 <= set <= 52,
                    1 <= h0 <= set,
                    is_seat_order(order@, n as int),
                    trick@.len() == t,
                    forall|k: int|
                        0 <= k < n ==> players@[order@[k] as int]@.hand.len() == (if k < t {
                            h0 - 1
                        } else {
                            h0
                        }),
                    forall|i: int| 0 <= i < n ==> (#[trigger] public@[i]).wins + h0 <= set,
                    forall|i: int|
                        0 <= i < n ==> ((#[trigger] public@[i]).guess matches Some(g) && g <= 53),
                    forall|i: int| 0 <= i < n ==> (#[trigger] public@[i]).score <= 540 * r,
                decreases n - t,
            {
                let pi = order[t];
                let hand_in = clone_cards(&players[pi].hand);
                let (new_hand, new_trick) = if players[pi].human {
                    play_human_card(communicator, &players[pi], hand_in, trick)
                } else {
                    play_card(hand_in, trick)
                };
                trick = new_trick;
                let name = players[pi].name.clone();
                let human = players[pi].human;
                let ghost pv = players@;
                players.set(pi, Player { name, human, hand: new_hand });
                communicator.write_to_all(Message::Trick(trick.clone()));
                proof {
                    assert(roster(players@) =~= roster(pv));
                }
                proof {
                    assert forall|k: int|
                        0 <= k < n implies players@[order@[k] as int]@.hand.len() == (if k < t
                        + 1 {
                        h0 - 1
                    } else {
                        h0
                    }) by {
                        if k != t {
                            assert(order@[k] != order@[t as int]);
                        }
                    }
                }
                t = t + 1;
            }
            let widx = determine_winner(&trick);
            let winner_pi = order[widx];
            let st = public[winner_pi];
            public.set(
                winner_pi,
                PublicState { guess: st.guess, wins: st.wins + 1, score: st.score },
            );
            communicator.write_to_all(
                Message::Scoreboard { state: make_state_list(players, &public) },
            );
            communicator.write_to_all(Message::Winner(players[winner_pi].clone()));
            let ghost before_rot = order@;
            rotate_left(&mut order, widx);
            proof {
                lemma_rotation_order(before_rot, order@, widx as int, n as int);
                assert(order@[0] == before_rot[widx as int]);
            }
        }
        proof {
            assert forall|i: int| 0 <= i < n implies (#[trigger] players@[i])@.hand.len()
                == 0 by {
                lemma_seat_order_onto(order@, n as int, i);
                let k = choose|k: int| 0 <= k < n && (#[trigger] order@[k]) as int == i;
                assert(players@[order@[k] as int]@.hand.len() == players@[order@[0] as
                    int]@.hand.len());
            }
        }
        let mut si: usize = 0;
        while si < n
            invariant
                si <= n,
                players@.len() == n,
                public@.len() == n,
                forall|i: int|
                    si <= i < n ==> ((#[trigger] public@[i]).score <= 540 * r
                        && (public@[i].guess matches Some(g) ==> g <= 53)),
                forall|i: int|
                    0 <= i < si ==> (#[trigger] public@[i]).wins == 0 && public@[i].score <= 540 * (
                    r + 1),
                r + 1 <= 104,
            decreases n - si,
        {
            let scored = score_round(public[si]);
            public.set(si, scored);
            si = si + 1;
        }
        let ghost before_seat = players@;
        rotate_left(players, 1);
        proof {
            assert forall|i: int| 0 <= i < n implies (#[trigger] players@[i])@.hand.len()
                == 0 by {
                if i < n - 1 {
                    assert(players@[i] == before_seat[i + 1]);
                } else {
                    assert(players@[i] == before_seat[0]);
                }
            }
            let ros_before = roster(before_seat);
            assert(roster(players@) =~= ros_before.skip(1) + ros_before.take(1));
            let jj = (r as int) % (n as int);
            vstd::arithmetic::div_mod::lemma_mod_division_less_than_divisor(r as int, n as int);
            lemma_rotation_mod_step(r as int, n as int);
            lemma_rotation_compose(ros0, jj);
            let jj2 = ((r + 1) as int) % (n as int);
            assert(roster(players@) =~= ros0.skip(jj2) + ros0.take(jj2));
        }
        let ghost pub0 = public@;
        rotate_left(&mut public, 1);
        proof {
            assert forall|i: int| 0 <= i < n implies (#[trigger] public@[i]).score <= 540 * (r + 1)
                && public@[i].wins == 0 by {
                if i < n - 1 {
                    assert(public@[i] == pub0[i + 1]);
                } else {
                    assert(public@[i] == pub0[0]);
                }
            }
        }
        r = r + 1;
    }
    proof {
        let nn = n as int;
        let k = seat_rotation(num_rounds as int, nn);
        assert(k == (r as int) % nn);
        vstd::arithmetic::div_mod::lemma_mod_division_less_than_divisor(r as int, nn);
        vstd::seq_lib::lemma_seq_union_to_multiset_commutative(ros0.skip(k), ros0.take(k));
        assert(ros0.take(k) + ros0.skip(k) =~= ros0);
    }
    let winners = determine_total_winners(players, &public);
    communicator.write_to_all(
        Message::Winners { players: clone_players(players), winner_indices: copy_indices(&winners) },
    );
    winners
}

} // verus!

//! The human-readable text rendering of the protocol: every message
//! becomes exactly one line, with cards shown as suit symbol and rank,
//! and illegal cards dimmed by cosmetic terminal codes.

use vstd::prelude::*;

use crate::cards::Card;
use crate::message::{Message, MessageV};
use crate::structs::{PlayerV, PublicState};
use crate::text::{dec_chars, format_usize};

verus! {

broadcast use vstd::seq_lib::group_to_multiset_ensures;

/// The symbol of a suit.
pub open spec fn suit_chars(suit: usize) -> Seq<char> {
    if suit == 0 {
        "\u{2665}"@
    } else if suit == 1 {
        "\u{2663}"@
    } else if suit == 2 {
        "\u{2666}"@
    } else {
        "\u{2660}"@
    }
}

/// The rank label of a card value: 0..=12 maps to 2..=10, J, Q, K, A.
pub open spec fn value_chars(value: usize) -> Seq<char> {
    if value <= 7 {
        dec_chars(value + 2)
    } else if value == 8 {
        "10"@
    } else if value == 9 {
        "J"@
    } else if value == 10 {
        "Q"@
    } else if value == 11 {
        "K"@
    } else {
        "A"@
    }
}

/// A text fragment wrapped in the dim/reset terminal codes.
pub open spec fn darken_chars(text: Seq<char>) -> Seq<char> {
    "\u{1b}[90m"@ + text + "\u{1b}[0m"@
}

/// One rendered card: an optional `index|` prefix, the suit symbol and
/// the rank label, dimmed when the card is not legal to play.
pub open spec fn card_chars(card: Card, darkened: bool, index: Option<usize>) -> Seq<char> {
    let index_part = match index {
        None => Seq::<char>::empty(),
        Some(i) => dec_chars(i as int) + "|"@,
    };
    let text = index_part + suit_chars(card.suit) + value_chars(card.value);
    if darkened {
        darken_chars(text)
    } else {
        text
    }
}

/// The suit symbol of a card.
fn suit_str(suit: usize) -> (r: &'static str)
    requires
        suit < 4,
    ensures
        r@ == suit_chars(suit),
{
    if suit == 0 {
        "\u{2665}"
    } else if suit == 1 {
        "\u{2663}"
    } else if suit == 2 {
        "\u{2666}"
    } else {
        "\u{2660}"
    }
}

/// The rank label of a card value.
fn value_str(value: usize) -> (r: String)
    requires
        value < 13,
    ensures
        r@ == value_chars(value),
{
    if value <= 7 {
        format_usize(value + 2)
    } else {
        let mut s = String::new();
        if value == 8 {
            s.append("10");
        } else if value == 9 {
            s.append("J");
        } else if value == 10 {
            s.append("Q");
        } else if value == 11 {
            s.append("K");
        } else {
            s.append("A");
        }
        proof {
            assert(s@ =~= value_chars(value));
        }
        s
    }
}

/// Wraps a text fragment in the dim/reset terminal codes.
pub fn darken(text: &str) -> (r: String)
    ensures
        r@ == darken_chars(text@),
{
    let mut s = String::new();
    s.append("\u{1b}[90m");
    s.append(text);
    s.append("\u{1b}[0m");
    proof {
        assert(s@ =~= darken_chars(text@));
    }
    s
}

/// Renders one card as [`card_chars`] describes.
pub fn format_card(card: Card, darkened: bool, index: Option<usize>) -> (r: String)
    requires
        card.valid(),
    ensures
        r@ == card_chars(card, darkened, index),
{
    let mut s = String::new();
    match index {
        Some(i) => {
            let num = format_usize(i);
            s.append(num.as_str());
            s.append("|");
        },
        None => {},
    }
    s.append(suit_str(card.suit));
    let value = value_str(card.value);
    s.append(value.as_str());
    if darkened {
        let r = darken(s.as_str());
        proof {
            assert(r@ =~= card_chars(card, darkened, index));
        }
        r
    } else {
        proof {
            assert(s@ =~= card_chars(card, darkened, index));
        }
        s
    }
}

/// The first `k` cards of a trick, space-separated, undimmed and without
/// indices.
pub open spec fn trick_chars(cards: Seq<Card>, k: int) -> Seq<char>
    decreases k,
{
    if k <= 0 {
        Seq::<char>::empty()
    } else if k == 1 {
        card_chars(cards[0], false, None)
    } else {
        trick_chars(cards, k - 1) + " "@ + card_chars(cards[k - 1], false, None)
    }
}

/// Every card of the sequence lies within the deck's bounds.
pub open spec fn cards_valid(cards: Seq<Card>) -> bool {
    forall|i: int| 0 <= i < cards.len() ==> (#[trigger] cards[i]).valid()
}

/// Renders a non-empty trick as its cards, space-separated; an empty
/// trick has no rendering.
pub fn format_trick(trick: &crate::structs::Trick) -> (r: Option<String>)
    requires
        cards_valid(trick@),
    ensures
        match r {
            None => trick@.len() == 0,
            Some(s) => trick@.len() > 0 && s@ == trick_chars(trick@, trick@.len() as int),
        },
{
    let cards = &trick.0;
    if cards.len() == 0 {
        return None;
    }
    let mut s = String::new();
    let mut k: usize = 0;
    while k < cards.len()
        invariant
            k <= cards@.len(),
            cards@.len() > 0,
            cards_valid(cards@),
            s@ == trick_chars(cards@, k as int),
        decreases cards@.len() - k,
    {
        if k > 0 {
            s.append(" ");
        }
        let piece = format_card(cards[k], false, None);
        s.append(piece.as_str());
        proof {
            assert(s@ =~= trick_chars(cards@, k + 1));
        }
        k = k + 1;
    }
    Some(s)
}

/// Whether the card at position `i` is rendered dimmed: only when a
/// legal-index set is given and does not hold `i`.
pub open spec fn card_dimmed(valid_cards: Option<Seq<usize>>, i: usize) -> bool {
    match valid_cards {
        Some(v) => !v.contains(i),
        None => false,
    }
}

/// The first `k` cards of a hand, space-separated, each dimmed when not
/// legal and prefixed with its index when indices are requested.
pub open spec fn hand_chars(
    hand: Seq<Card>,
    valid_cards: Option<Seq<usize>>,
    with_indices: bool,
    k: int,
) -> Seq<char>
    decreases k,
{
    let index = |i: int|
        if with_indices {
            Some(i as usize)
        } else {
            None
        };
    if k <= 0 {
        Seq::<char>::empty()
    } else if k == 1 {
        card_chars(hand[0], card_dimmed(valid_cards, 0), index(0))
    } else {
        hand_chars(hand, valid_cards, with_indices, k - 1) + " "@ + card_chars(
            hand[k - 1],
            card_dimmed(valid_cards, (k - 1) as usize),
            index(k - 1),
        )
    }
}

/// The legal-index list as a mathematical value.
pub open spec fn valid_cards_view(valid_cards: &Option<Vec<usize>>) -> Option<Seq<usize>> {
    match valid_cards {
        Some(v) => Some(v@),
        None => None,
    }
}

/// Renders a hand as [`hand_chars`] describes.
pub fn format_hand(hand: &Vec<Card>, valid_cards: &Option<Vec<usize>>, with_indices: bool) -> (r:
    String)
    requires
        cards_valid(hand@),
    ensures
        r@ == hand_chars(hand@, valid_cards_view(valid_cards), with_indices, hand@.len() as int),
{
    let mut s = String::new();
    let mut k: usize = 0;
    while k < hand.len()
        invariant
            k <= hand@.len(),
            cards_valid(hand@),
            s@ == hand_chars(hand@, valid_cards_view(valid_cards), with_indices, k as int),
        decreases hand@.len() - k,
    {
        if k > 0 {
            s.append(" ");
        }
        let dimmed = match valid_cards {
            Some(v) => !crate::game::contains_index(v, k),
            None => false,
        };
        let index = if with_indices {
            Some(k)
        } else {
            None
        };
        let piece = format_card(hand[k], dimmed, index);
        s.append(piece.as_str());
        proof {
            assert(s@ =~= hand_chars(hand@, valid_cards_view(valid_cards), with_indices, k + 1));
        }
        k = k + 1;
    }
    s
}

/// A seat's guess for display: the number, or a question mark before the
/// seat has guessed.
pub open spec fn guess_chars(state: PublicState) -> Seq<char> {
    match state.guess {
        Some(g) => dec_chars(g as int),
        None => "?"@,
    }
}

/// Renders a guess as [`guess_chars`] describes.
pub fn format_guess(state: &PublicState) -> (r: String)
    ensures
        r@ == guess_chars(*state),
{
    match state.guess {
        Some(g) => format_usize(g),
        None => {
            let mut s = String::new();
            s.append("?");
            proof {
                assert(s@ =~= "?"@);
            }
            s
        },
    }
}

/// The first `k` guess entries, comma-separated: each name with its
/// guess.
pub open spec fn guess_entries_chars(state: Seq<(Seq<char>, PublicState)>, k: int) -> Seq<char>
    decreases k,
{
    if k <= 0 {
        Seq::<char>::empty()
    } else if k == 1 {
        state[0].0 + ": "@ + guess_chars(state[0].1)
    } else {
        guess_entries_chars(state, k - 1) + ", "@ + state[k - 1].0 + ": "@ + guess_chars(
            state[k - 1].1,
        )
    }
}

/// The guess broadcast: `Guesses: ` followed by every seat's entry.
pub open spec fn guesses_chars(state: Seq<(Seq<char>, PublicState)>) -> Seq<char> {
    "Guesses: "@ + guess_entries_chars(state, state.len() as int)
}

/// Renders the guess broadcast as [`guesses_chars`] describes.
pub fn format_guesses(state: &crate::structs::StatePerPlayer) -> (r: String)
    ensures
        r@ == guesses_chars(crate::message::state_pairs(state@)),
{
    let ghost pairs = crate::message::state_pairs(state@);
    let mut s = String::new();
    s.append("Guesses: ");
    let mut k: usize = 0;
    while k < state.len()
        invariant
            k <= state@.len(),
            pairs == crate::message::state_pairs(state@),
            pairs.len() == state@.len(),
            s@ == "Guesses: "@ + guess_entries_chars(pairs, k as int),
        decreases state@.len() - k,
    {
        if k > 0 {
            s.append(", ");
        }
        s.append(state[k].0.as_str());
        s.append(": ");
        let guess = format_guess(&state[k].1);
        s.append(guess.as_str());
        proof {
            assert(pairs[k as int].0 == state@[k as int].0@);
            assert(pairs[k as int].1 == state@[k as int].1);
            assert(s@ =~= "Guesses: "@ + guess_entries_chars(pairs, k + 1));
        }
        k = k + 1;
    }
    proof {
        assert(s@ =~= guesses_chars(pairs));
    }
    s
}


/// One scoreboard entry as a mathematical value: the seat's name and its
/// public state.
pub type ScoreEntry = (Seq<char>, PublicState);

/// Lexicographic order on names, by character code; the order Rust's
/// string comparison gives, which the scoreboard sorts by.
pub open spec fn name_le(a: Seq<char>, b: Seq<char>) -> bool
    decreases a.len(),
{
    if a.len() == 0 {
        true
    } else if b.len() == 0 {
        false
    } else if (a[0] as u32) < (b[0] as u32) {
        true
    } else if a[0] != b[0] {
        false
    } else {
        name_le(a.skip(1), b.skip(1))
    }
}

/// Two characters are equal exactly when their codes are: stated as a
/// lemma so it applies to characters drawn out of sequences.
proof fn lemma_char_code(c1: char, c2: char)
    ensures
        (c1 as u32 == c2 as u32) <==> (c1 == c2),
{
}

/// Any two names compare one way or the other.
proof fn lemma_name_le_total(a: Seq<char>, b: Seq<char>)
    ensures
        name_le(a, b) || name_le(b, a),
    decreases a.len(),
{
    if a.len() == 0 {
    } else if b.len() == 0 {
        assert(name_le(b, a));
    } else if a[0] == b[0] {
        lemma_name_le_total(a.skip(1), b.skip(1));
    } else {
        lemma_char_code(a[0], b[0]);
        if (a[0] as u32) < (b[0] as u32) {
            assert(name_le(a, b));
        } else {
            assert(name_le(b, a));
        }
    }
}

/// Names that compare both ways are the same name.
proof fn lemma_name_le_antisym(a: Seq<char>, b: Seq<char>)
    requires
        name_le(a, b),
        name_le(b, a),
    ensures
        a == b,
    decreases a.len(),
{
    if a.len() == 0 {
        assert(b.len() == 0);
        assert(a =~= b);
    } else {
        assert(b.len() != 0);
        assert(a[0] == b[0]);
        lemma_name_le_antisym(a.skip(1), b.skip(1));
        assert forall|i: int| 0 <= i < a.len() implies a[i] == b[i] by {
            if i > 0 {
                assert(a.skip(1)[i - 1] == b.skip(1)[i - 1]);
            }
        }
        assert(a =~= b);
    }
}

/// The name order is transitive.
proof fn lemma_name_le_trans(a: Seq<char>, b: Seq<char>, c: Seq<char>)
    requires
        name_le(a, b),
        name_le(b, c),
    ensures
        name_le(a, c),
    decreases a.len(),
{
    if a.len() != 0 {
        assert(b.len() != 0);
        assert(c.len() != 0);
        if a[0] == b[0] && b[0] == c[0] {
            lemma_name_le_trans(a.skip(1), b.skip(1), c.skip(1));
        }
    }
}

/// A total rank for the optional guess: unset sorts before any number.
pub open spec fn guess_rank(g: Option<usize>) -> int {
    match g {
        None => -1,
        Some(v) => v as int,
    }
}

/// A total order on public states: by guess, then wins, then score. It
/// only breaks ties between entries that share a name, which a real
/// scoreboard never holds.
pub open spec fn state_le(x: PublicState, y: PublicState) -> bool {
    ||| guess_rank(x.guess) < guess_rank(y.guess)
    ||| (guess_rank(x.guess) == guess_rank(y.guess) && (x.wins < y.wins || (x.wins == y.wins
        && x.score <= y.score)))
}

/// The scoreboard order on entries: ascending name, states breaking
/// exact-name ties.
pub open spec fn entry_le(a: ScoreEntry, b: ScoreEntry) -> bool {
    if a.0 == b.0 {
        state_le(a.1, b.1)
    } else {
        name_le(a.0, b.0)
    }
}

/// The scoreboard order as a relation value.
pub open spec fn scoreboard_le() -> spec_fn(ScoreEntry, ScoreEntry) -> bool {
    |x: ScoreEntry, y: ScoreEntry| entry_le(x, y)
}

/// The scoreboard order is a total ordering.
proof fn lemma_scoreboard_le_total_ordering()
    ensures
        vstd::relations::total_ordering(scoreboard_le()),
{
    let leq = scoreboard_le();
    assert forall|x: ScoreEntry| #[trigger] leq(x, x) by {}
    assert forall|x: ScoreEntry, y: ScoreEntry| #[trigger] leq(x, y) && #[trigger] leq(y, x)
        implies x == y by {
        if x.0 == y.0 {
            assert(guess_rank(x.1.guess) == guess_rank(y.1.guess));
            assert(x.1.guess == y.1.guess) by {
                match x.1.guess {
                    None => {
                        assert(guess_rank(y.1.guess) == -1);
                    },
                    Some(v) => {
                        assert(guess_rank(y.1.guess) == v);
                    },
                }
            }
            assert(x.1 == y.1);
            assert(x == y);
        } else {
            lemma_name_le_antisym(x.0, y.0);
        }
    }
    assert forall|x: ScoreEntry, y: ScoreEntry, z: ScoreEntry|
        #[trigger] leq(x, y) && #[trigger] leq(y, z) implies leq(x, z) by {
        if x.0 == y.0 && y.0 == z.0 {
        } else if x.0 == y.0 {
        } else if y.0 == z.0 {
        } else {
            lemma_name_le_trans(x.0, y.0, z.0);
            if x.0 == z.0 {
                lemma_name_le_antisym(x.0, y.0);
            }
        }
    }
    assert forall|x: ScoreEntry, y: ScoreEntry| #[trigger] leq(x, y) || #[trigger] leq(y, x) by {
        if x.0 != y.0 {
            lemma_name_le_total(x.0, y.0);
        }
    }
    assert(vstd::relations::reflexive(leq));
    assert(vstd::relations::antisymmetric(leq));
    assert(vstd::relations::transitive(leq));
    assert(vstd::relations::strongly_connected(leq));
}

/// Under a total ordering, a sorted sequence is determined by what it
/// holds: two sorted sequences with the same multiset are equal.
proof fn lemma_sorted_unique<T>(a: Seq<T>, b: Seq<T>, leq: spec_fn(T, T) -> bool)
    requires
        vstd::relations::sorted_by(a, leq),
        vstd::relations::sorted_by(b, leq),
        a.to_multiset() == b.to_multiset(),
        vstd::relations::total_ordering(leq),
    ensures
        a == b,
    decreases a.len(),
{
    assert(a.len() == a.to_multiset().len());
    assert(b.len() == b.to_multiset().len());
    if a.len() == 0 {
        assert(a =~= b);
    } else {
        assert(a.contains(a[0]));
        assert(a.to_multiset().count(a[0]) > 0);
        assert(b.contains(a[0]));
        let ja = choose|j: int| 0 <= j < b.len() && b[j] == a[0];
        assert(leq(b[0], a[0])) by {
            if ja > 0 {
                assert(leq(b[0], b[ja]));
            }
        }
        assert(b.contains(b[0]));
        assert(b.to_multiset().count(b[0]) > 0);
        assert(a.contains(b[0]));
        let jb = choose|j: int| 0 <= j < a.len() && a[j] == b[0];
        assert(leq(a[0], b[0])) by {
            if jb > 0 {
                assert(leq(a[0], a[jb]));
            }
        }
        assert(a[0] == b[0]);
        let at = a.remove(0);
        let bt = b.remove(0);
        assert(at.to_multiset() == a.to_multiset().remove(a[0]));
        assert(bt.to_multiset() == b.to_multiset().remove(b[0]));
        assert(at.to_multiset() =~= bt.to_multiset());
        assert(vstd::relations::sorted_by(at, leq)) by {
            assert forall|i: int, j: int| 0 <= i < j < at.len() implies #[trigger] leq(
                at[i],
                at[j],
            ) by {
                assert(at[i] == a[i + 1]);
                assert(at[j] == a[j + 1]);
            }
        }
        assert(vstd::relations::sorted_by(bt, leq)) by {
            assert forall|i: int, j: int| 0 <= i < j < bt.len() implies #[trigger] leq(
                bt[i],
                bt[j],
            ) by {
                assert(bt[i] == b[i + 1]);
                assert(bt[j] == b[j + 1]);
            }
        }
        lemma_sorted_unique(at, bt, leq);
        assert forall|i: int| 0 <= i < a.len() implies a[i] == b[i] by {
            if i > 0 {
                assert(at[i - 1] == bt[i - 1]);
            }
        }
        assert(a =~= b);
    }
}

/// The scoreboard's entries in display order: sorted ascending by name.
pub open spec fn scoreboard_sorted(state: Seq<ScoreEntry>) -> Seq<ScoreEntry> {
    state.sort_by(scoreboard_le())
}

/// Compares two name suffixes, character by character from position `i`.
fn name_le_from(a: &str, b: &str, i: usize) -> (r: bool)
    requires
        i <= a@.len(),
        i <= b@.len(),
    ensures
        r == name_le(a@.skip(i as int), b@.skip(i as int)),
    decreases a@.len() - i,
{
    if i == a.unicode_len() {
        true
    } else if i == b.unicode_len() {
        false
    } else {
        let ca = a.get_char(i);
        let cb = b.get_char(i);
        proof {
            assert(a@.skip(i as int)[0] == a@[i as int]);
            assert(b@.skip(i as int)[0] == b@[i as int]);
            assert(a@.skip(i as int).skip(1) =~= a@.skip(i + 1));
            assert(b@.skip(i as int).skip(1) =~= b@.skip(i + 1));
        }
        if (ca as u32) < (cb as u32) {
            true
        } else if ca != cb {
            false
        } else {
            name_le_from(a, b, i + 1)
        }
    }
}

/// Compares two scoreboard entries by the scoreboard order.
fn entry_le_exec(a: &(crate::structs::PlayerName, PublicState), b: &(
    crate::structs::PlayerName,
    PublicState,
)) -> (r: bool)
    ensures
        r == entry_le((a.0@, a.1), (b.0@, b.1)),
{
    if a.0.0 == b.0.0 {
        proof {
            assert(a.0@ == b.0@);
        }
        match (a.1.guess, b.1.guess) {
            (None, None) => {
                a.1.wins < b.1.wins || (a.1.wins == b.1.wins && a.1.score <= b.1.score)
            },
            (None, Some(_)) => true,
            (Some(_), None) => false,
            (Some(ga), Some(gb)) => {
                ga < gb || (ga == gb && (a.1.wins < b.1.wins || (a.1.wins == b.1.wins && a.1.score
                    <= b.1.score)))
            },
        }
    } else {
        proof {
            assert(a.0@ != b.0@);
            assert(a.0@.skip(0int) =~= a.0@);
            assert(b.0@.skip(0int) =~= b.0@);
        }
        name_le_from(a.0.0.as_str(), b.0.0.as_str(), 0)
    }
}

/// Sorts scoreboard entries into display order: the result is exactly
/// [`scoreboard_sorted`] of the input.
fn sort_state(state: &crate::structs::StatePerPlayer) -> (sorted: crate::structs::StatePerPlayer)
    ensures
        crate::message::state_pairs(sorted@) == scoreboard_sorted(
            crate::message::state_pairs(state@),
        ),
{
    let ghost orig = crate::message::state_pairs(state@);
    let mut rem: crate::structs::StatePerPlayer = Vec::new();
    let mut i: usize = 0;
    while i < state.len()
        invariant
            i <= state@.len(),
            rem@.len() == i,
            forall|j: int|
                0 <= j < i ==> (#[trigger] rem@[j]).0@ == state@[j].0@ && rem@[j].1
                    == state@[j].1,
        decreases state@.len() - i,
    {
        rem.push((state[i].0.clone(), state[i].1));
        i = i + 1;
    }
    proof {
        assert(crate::message::state_pairs(rem@) =~= orig);
    }
    let mut out: crate::structs::StatePerPlayer = Vec::new();
    while rem.len() > 0
        invariant
            crate::message::state_pairs(out@).to_multiset().add(
                crate::message::state_pairs(rem@).to_multiset(),
            ) =~= orig.to_multiset(),
            crate::message::state_pairs(out@).len() + crate::message::state_pairs(rem@).len()
                == orig.len(),
            vstd::relations::sorted_by(crate::message::state_pairs(out@), scoreboard_le()),
            forall|i: int, j: int|
                0 <= i < out@.len() && 0 <= j < rem@.len() ==> entry_le(
                    #[trigger] crate::message::state_pairs(out@)[i],
                    #[trigger] crate::message::state_pairs(rem@)[j],
                ),
        decreases rem@.len(),
    {
        let ghost remv = crate::message::state_pairs(rem@);
        let mut min: usize = 0;
        let mut k: usize = 1;
        while k < rem.len()
            invariant
                min < k <= rem@.len(),
                remv == crate::message::state_pairs(rem@),
                forall|j: int| 0 <= j < k ==> entry_le(remv[min as int], #[trigger] remv[j]),
            decreases rem@.len() - k,
        {
            proof {
                lemma_scoreboard_le_total_ordering();
                assert(remv[k as int] == (rem@[k as int].0@, rem@[k as int].1));
                assert(remv[min as int] == (rem@[min as int].0@, rem@[min as int].1));
            }
            if entry_le_exec(&rem[k], &rem[min]) {
                proof {
                    assert forall|j: int| 0 <= j < k + 1 implies entry_le(
                        remv[k as int],
                        #[trigger] remv[j],
                    ) by {
                        let leq = scoreboard_le();
                        assert(leq(remv[k as int], remv[min as int]));
                        if j < k {
                            assert(leq(remv[min as int], remv[j]));
                        }
                    }
                }
                min = k;
            } else {
                proof {
                    let leq = scoreboard_le();
                    assert(!entry_le(remv[k as int], remv[min as int]));
                    assert(leq(remv[k as int], remv[min as int]) || leq(
                        remv[min as int],
                        remv[k as int],
                    ));
                    assert(entry_le(remv[min as int], remv[k as int]));
                }
            }
            k = k + 1;
        }
        let ghost outv0 = crate::message::state_pairs(out@);
        let picked = rem.remove(min);
        let ghost pickedv = (picked.0@, picked.1);
        out.push(picked);
        proof {
            assert(pickedv == remv[min as int]);
            assert(crate::message::state_pairs(rem@) =~= remv.remove(min as int));
            assert(crate::message::state_pairs(out@) =~= outv0.push(pickedv));
            assert(remv.remove(min as int).to_multiset() == remv.to_multiset().remove(pickedv));
            assert(outv0.push(pickedv).to_multiset() == outv0.to_multiset().insert(pickedv));
            assert(remv.contains(pickedv));
            assert(remv.to_multiset().count(pickedv) > 0);
            assert(crate::message::state_pairs(out@).to_multiset().add(
                crate::message::state_pairs(rem@).to_multiset(),
            ) =~= outv0.to_multiset().add(remv.to_multiset()));
            let outv = crate::message::state_pairs(out@);
            let newremv = crate::message::state_pairs(rem@);
            assert(vstd::relations::sorted_by(outv, scoreboard_le())) by {
                assert forall|i: int, j: int| 0 <= i < j < outv.len() implies #[trigger] (
                scoreboard_le())(outv[i], outv[j]) by {
                    if j < outv.len() - 1 {
                        assert(outv[i] == outv0[i] && outv[j] == outv0[j]);
                    } else {
                        assert(outv[j] == pickedv);
                        if i < outv.len() - 1 {
                            assert(outv[i] == outv0[i]);
                            assert(entry_le(outv0[i], remv[min as int]));
                        } else {
                        }
                    }
                }
            }
            assert forall|i: int, j: int|
                0 <= i < out@.len() && 0 <= j < rem@.len() implies entry_le(
                #[trigger] outv[i],
                #[trigger] newremv[j],
            ) by {
                assert(newremv[j] == if j < min { remv[j] } else { remv[j + 1] });
                if i < outv.len() - 1 {
                    assert(outv[i] == outv0[i]);
                } else {
                    assert(outv[i] == remv[min as int]);
                }
            }
        }
    }
    proof {
        let outv = crate::message::state_pairs(out@);
        assert(crate::message::state_pairs(rem@).to_multiset() =~= vstd::multiset::Multiset::<
            ScoreEntry,
        >::empty()) by {
            assert(crate::message::state_pairs(rem@).len() == 0);
        }
        assert(outv.to_multiset() =~= orig.to_multiset());
        lemma_scoreboard_le_total_ordering();
        orig.lemma_sort_by_ensures(scoreboard_le());
        lemma_sorted_unique(outv, orig.sort_by(scoreboard_le()), scoreboard_le());
    }
    out
}

/// One scoreboard entry: wins over guess, a smiling face while the guess
/// is still met (and an upside-down one otherwise), and the total score.
pub open spec fn score_entry_chars(state: PublicState) -> Seq<char> {
    let face: Seq<char> = if state.guess matches Some(g) && state.wins == g {
        seq!['\u{1F642}']
    } else {
        seq!['\u{1F643}']
    };
    dec_chars(state.wins as int) + "/"@ + guess_chars(state) + " "@ + face + " (total: "@
        + dec_chars(state.score as int) + ")"@
}

/// Renders one scoreboard entry as [`score_entry_chars`] describes.
fn format_score_entry(state: &PublicState) -> (r: String)
    ensures
        r@ == score_entry_chars(*state),
{
    let mut s = format_usize(state.wins);
    s.append("/");
    let guess = format_guess(state);
    s.append(guess.as_str());
    s.append(" ");
    let plumped = match state.guess {
        Some(g) => state.wins != g,
        None => true,
    };
    if plumped {
        s.append("\u{1F643}");
        proof {
            reveal_strlit("\u{1F643}");
        }
    } else {
        s.append("\u{1F642}");
        proof {
            reveal_strlit("\u{1F642}");
        }
    }
    s.append(" (total: ");
    let score = format_usize(state.score);
    s.append(score.as_str());
    s.append(")");
    proof {
        assert(s@ =~= score_entry_chars(*state));
    }
    s
}

/// The first `k` scoreboard entries, comma-separated, each preceded by
/// its seat's name.
pub open spec fn score_entries_chars(state: Seq<(Seq<char>, PublicState)>, k: int) -> Seq<char>
    decreases k,
{
    if k <= 0 {
        Seq::<char>::empty()
    } else if k == 1 {
        state[0].0 + ": "@ + score_entry_chars(state[0].1)
    } else {
        score_entries_chars(state, k - 1) + ", "@ + state[k - 1].0 + ": "@ + score_entry_chars(
            state[k - 1].1,
        )
    }
}

/// The whole scoreboard, in the order the state list gives.
pub open spec fn scoreboard_chars(state: Seq<(Seq<char>, PublicState)>) -> Seq<char> {
    score_entries_chars(state, state.len() as int)
}

/// Renders a state list as one scoreboard line, in the list's order.
fn render_scoreboard(state: &crate::structs::StatePerPlayer) -> (r: String)
    ensures
        r@ == scoreboard_chars(crate::message::state_pairs(state@)),
{
    let ghost pairs = crate::message::state_pairs(state@);
    let mut s = String::new();
    let mut k: usize = 0;
    while k < state.len()
        invariant
            k <= state@.len(),
            pairs == crate::message::state_pairs(state@),
            pairs.len() == state@.len(),
            s@ == score_entries_chars(pairs, k as int),
        decreases state@.len() - k,
    {
        if k > 0 {
            s.append(", ");
        }
        s.append(state[k].0.as_str());
        s.append(": ");
        let entry = format_score_entry(&state[k].1);
        s.append(entry.as_str());
        proof {
            assert(pairs[k as int].0 == state@[k as int].0@);
            assert(pairs[k as int].1 == state@[k as int].1);
            assert(s@ =~= score_entries_chars(pairs, k + 1));
        }
        k = k + 1;
    }
    proof {
        assert(s@ =~= scoreboard_chars(pairs));
    }
    s
}

/// Renders the scoreboard: every entry of the state list exactly once,
/// sorted ascending by player name, as [`scoreboard_chars`] of
/// [`scoreboard_sorted`] describes.
pub fn format_scoreboard(state: &crate::structs::StatePerPlayer) -> (r: String)
    ensures
        r@ == scoreboard_chars(scoreboard_sorted(crate::message::state_pairs(state@))),
{
    let sorted = sort_state(state);
    render_scoreboard(&sorted)
}

/// The prompt header shown with a play request: the trick so far, or a
/// nudge that the player leads.
pub open spec fn player_prompt_chars(trick: Seq<Card>) -> Seq<char> {
    if trick.len() == 0 {
        "You go first!"@
    } else {
        "Trick: "@ + trick_chars(trick, trick.len() as int)
    }
}

/// Renders the prompt header as [`player_prompt_chars`] describes.
pub fn format_player_prompt(trick: &crate::structs::Trick) -> (r: String)
    requires
        cards_valid(trick@),
    ensures
        r@ == player_prompt_chars(trick@),
{
    match format_trick(trick) {
        Some(text) => {
            let mut s = String::new();
            s.append("Trick: ");
            s.append(text.as_str());
            proof {
                assert(s@ =~= player_prompt_chars(trick@));
            }
            s
        },
        None => {
            let mut s = String::new();
            s.append("You go first!");
            proof {
                assert(s@ =~= player_prompt_chars(trick@));
            }
            s
        },
    }
}

/// The turn broadcast: the player's name and `'s turn`.
pub open spec fn turn_chars(player: PlayerV) -> Seq<char> {
    player.name + "'s turn"@
}

/// Renders the turn broadcast as [`turn_chars`] describes.
pub fn format_turn(player: &crate::structs::Player) -> (r: String)
    ensures
        r@ == turn_chars(player@),
{
    let mut s = String::new();
    s.append(player.name.as_str());
    s.append("'s turn");
    proof {
        assert(s@ =~= turn_chars(player@));
    }
    s
}

/// The trick-winner broadcast: the player's name and ` won!`.
pub open spec fn winner_chars(player: PlayerV) -> Seq<char> {
    player.name + " won!"@
}

/// Renders the trick-winner broadcast as [`winner_chars`] describes.
pub fn format_winner(player: &crate::structs::Player) -> (r: String)
    ensures
        r@ == winner_chars(player@),
{
    let mut s = String::new();
    s.append(player.name.as_str());
    s.append(" won!");
    proof {
        assert(s@ =~= winner_chars(player@));
    }
    s
}

/// The first `k` guesses as space-separated numbers.
pub open spec fn guess_list_chars(guesses: Seq<usize>, k: int) -> Seq<char>
    decreases k,
{
    if k <= 0 {
        Seq::<char>::empty()
    } else if k == 1 {
        dec_chars(guesses[0] as int)
    } else {
        guess_list_chars(guesses, k - 1) + " "@ + dec_chars(guesses[k - 1] as int)
    }
}

/// The guess-request context line: the addressed player's name, the
/// hand, the previous guesses, and the player count.
pub open spec fn request_guess_context_chars(
    player: PlayerV,
    hand: Seq<Card>,
    guesses: Seq<usize>,
    players: usize,
) -> Seq<char> {
    player.name + ": Hand: "@ + hand_chars(hand, None, false, hand.len() as int)
        + ", Previous Guesses: "@ + guess_list_chars(guesses, guesses.len() as int)
        + ", Players: "@ + dec_chars(players as int)
}

/// Renders the guess-request context as [`request_guess_context_chars`]
/// describes.
pub fn format_request_guess_context(
    player: &crate::structs::Player,
    hand: &Vec<Card>,
    guesses: &Vec<usize>,
    players: usize,
) -> (r: String)
    requires
        cards_valid(hand@),
    ensures
        r@ == request_guess_context_chars(player@, hand@, guesses@, players),
{
    let mut s = String::new();
    s.append(player.name.as_str());
    s.append(": Hand: ");
    let hand_text = format_hand(hand, &None, false);
    s.append(hand_text.as_str());
    s.append(", Previous Guesses: ");
    let mut k: usize = 0;
    let ghost prefix = s@;
    while k < guesses.len()
        invariant
            k <= guesses@.len(),
            s@ == prefix + guess_list_chars(guesses@, k as int),
        decreases guesses@.len() - k,
    {
        if k > 0 {
            s.append(" ");
        }
        let num = format_usize(guesses[k]);
        s.append(num.as_str());
        proof {
            assert(s@ =~= prefix + guess_list_chars(guesses@, k + 1));
        }
        k = k + 1;
    }
    s.append(", Players: ");
    let count = format_usize(players);
    s.append(count.as_str());
    proof {
        assert(s@ =~= request_guess_context_chars(player@, hand@, guesses@, players));
    }
    s
}

/// The guess prompt.
pub open spec fn request_guess_chars() -> Seq<char> {
    "Please make a guess: "@
}

/// Renders the guess prompt.
pub fn format_request_guess() -> (r: String)
    ensures
        r@ == request_guess_chars(),
{
    let mut s = String::new();
    s.append("Please make a guess: ");
    proof {
        assert(s@ =~= request_guess_chars());
    }
    s
}

/// The play-request context line: the addressed player's name, the hand
/// with indices and dimming, and the trick-or-lead header.
pub open spec fn play_request_context_chars(
    player: PlayerV,
    hand: Seq<Card>,
    trick: Seq<Card>,
    valid_cards: Option<Seq<usize>>,
) -> Seq<char> {
    player.name + ": Hand: "@ + hand_chars(hand, valid_cards, true, hand.len() as int) + ", "@
        + player_prompt_chars(trick)
}

/// Renders the play-request context as [`play_request_context_chars`]
/// describes.
pub fn format_play_request_context(
    player: &crate::structs::Player,
    hand: &Vec<Card>,
    trick: &crate::structs::Trick,
    valid_cards: &Option<Vec<usize>>,
) -> (r: String)
    requires
        cards_valid(hand@),
        cards_valid(trick@),
    ensures
        r@ == play_request_context_chars(player@, hand@, trick@, valid_cards_view(valid_cards)),
{
    let mut s = String::new();
    s.append(player.name.as_str());
    s.append(": Hand: ");
    let hand_text = format_hand(hand, valid_cards, true);
    s.append(hand_text.as_str());
    s.append(", ");
    let prompt = format_player_prompt(trick);
    s.append(prompt.as_str());
    proof {
        assert(s@ =~= play_request_context_chars(
            player@,
            hand@,
            trick@,
            valid_cards_view(valid_cards),
        ));
    }
    s
}

/// The play prompt for the named player.
pub open spec fn play_request_chars(player: PlayerV) -> Seq<char> {
    player.name + ": Select card to play (leftmost is 0): "@
}

/// Renders the play prompt as [`play_request_chars`] describes.
pub fn format_play_request(player: &crate::structs::Player) -> (r: String)
    ensures
        r@ == play_request_chars(player@),
{
    let mut s = String::new();
    s.append(player.name.as_str());
    s.append(": Select card to play (leftmost is 0): ");
    proof {
        assert(s@ =~= play_request_chars(player@));
    }
    s
}

/// The first `k` winner names, comma-separated, looked up by seat index.
pub open spec fn winner_names_chars(players: Seq<PlayerV>, winners: Seq<usize>, k: int) -> Seq<
    char,
>
    decreases k,
{
    if k <= 0 {
        Seq::<char>::empty()
    } else if k == 1 {
        players[winners[0] as int].name
    } else {
        winner_names_chars(players, winners, k - 1) + ", "@ + players[winners[k - 1] as int].name
    }
}

/// The final broadcast line naming every winning seat.
pub open spec fn winners_chars(players: Seq<PlayerV>, winners: Seq<usize>) -> Seq<char> {
    "The winner(s) is/are "@ + winner_names_chars(players, winners, winners.len() as int) + "!"@
}

/// Every winner index points at a seat.
pub open spec fn winners_in_range(players_len: int, winners: Seq<usize>) -> bool {
    forall|k: int| 0 <= k < winners.len() ==> (#[trigger] winners[k]) < players_len
}

/// Renders the final broadcast as [`winners_chars`] describes.
pub fn format_winners(players: &Vec<crate::structs::Player>, winners: &Vec<usize>) -> (r: String)
    requires
        winners_in_range(players@.len() as int, winners@),
    ensures
        r@ == winners_chars(crate::message::player_views(players@), winners@),
{
    let ghost views = crate::message::player_views(players@);
    let mut s = String::new();
    s.append("The winner(s) is/are ");
    let mut k: usize = 0;
    while k < winners.len()
        invariant
            k <= winners@.len(),
            views == crate::message::player_views(players@),
            views.len() == players@.len(),
            winners_in_range(players@.len() as int, winners@),
            s@ == "The winner(s) is/are "@ + winner_names_chars(views, winners@, k as int),
        decreases winners@.len() - k,
    {
        if k > 0 {
            s.append(", ");
        }
        let index = winners[k];
        s.append(players[index].name.as_str());
        proof {
            assert(views[index as int].name == players@[index as int]@.name);
            assert(s@ =~= "The winner(s) is/are "@ + winner_names_chars(views, winners@, k + 1));
        }
        k = k + 1;
    }
    s.append("!");
    proof {
        assert(s@ =~= winners_chars(views, winners@));
    }
    s
}

/// The handshake prompt.
pub open spec fn request_player_name_chars() -> Seq<char> {
    "Please input player name: "@
}

/// Renders the handshake prompt.
pub fn format_request_player_name() -> (r: String)
    ensures
        r@ == request_player_name_chars(),
{
    let mut s = String::new();
    s.append("Please input player name: ");
    proof {
        assert(s@ =~= request_player_name_chars());
    }
    s
}

/// A message holds only cards within the deck's bounds and, in the final
/// broadcast, only winner indices that point at seats: what the text
/// rendering needs to be defined.
pub open spec fn message_wf(m: MessageV) -> bool {
    match m {
        MessageV::RequestGuessContext { hand, .. } => cards_valid(hand),
        MessageV::PlayRequestContext { hand, trick, .. } => cards_valid(hand) && cards_valid(
            trick,
        ),
        MessageV::Trick { cards } => cards_valid(cards),
        MessageV::Winners { players, winner_indices } => winners_in_range(
            players.len() as int,
            winner_indices,
        ),
        _ => true,
    }
}

/// The one-line text rendering of a message.
pub open spec fn message_chars(m: MessageV) -> Seq<char> {
    match m {
        MessageV::RequestGuessContext { player, hand, guesses, players } => {
            request_guess_context_chars(player, hand, guesses, players)
        },
        MessageV::Guesses { state } => guesses_chars(state),
        MessageV::Turn { whose } => turn_chars(whose),
        MessageV::PlayRequestContext { player, hand, trick, valid_cards } => {
            play_request_context_chars(player, hand, trick, valid_cards)
        },
        MessageV::Trick { cards } => trick_chars(cards, cards.len() as int),
        MessageV::Scoreboard { state } => scoreboard_chars(scoreboard_sorted(state)),
        MessageV::Winner { player } => winner_chars(player),
        MessageV::Winners { players, winner_indices } => winners_chars(players, winner_indices),
        MessageV::RequestPlayerName => request_player_name_chars(),
        MessageV::PlayRequest { player } => play_request_chars(player),
        MessageV::RequestGuess => request_guess_chars(),
        MessageV::GameOver => "Game over!"@,
    }
}

impl Message {
    /// Renders the message as its one line of human-readable text.
    pub fn to_string(&self) -> (r: String)
        requires
            message_wf(self@),
        ensures
            r@ == message_chars(self@),
    {
        match self {
            Message::RequestGuessContext { player, hand, guesses, players } => {
                format_request_guess_context(player, hand, guesses, *players)
            },
            Message::Guesses { state } => format_guesses(state),
            Message::Turn { whose } => format_turn(whose),
            Message::PlayRequestContext { player, hand, trick, valid_cards } => {
                format_play_request_context(player, hand, trick, valid_cards)
            },
            Message::Trick(trick) => {
                match format_trick(trick) {
                    Some(text) => text,
                    None => String::new(),
                }
            },
            Message::Scoreboard { state } => format_scoreboard(state),
            Message::Winner(player) => format_winner(player),
            Message::Winners { players, winner_indices } => format_winners(players, winner_indices),
            Message::RequestPlayerName => format_request_player_name(),
            Message::PlayRequest(player) => format_play_request(player),
            Message::RequestGuess => format_request_guess(),
            Message::GameOver => {
                let mut s = String::new();
                s.append("Game over!");
                proof {
                    assert(s@ =~= "Game over!"@);
                }
                s
            },
        }
    }
}

} // verus!

//! The shared data model: player names, players, tricks, and the public
//! per-player state that every participant sees.

use vstd::prelude::*;

use crate::cards::Card;

verus! {

/// A player's display name, the routing key for all addressed traffic.
#[derive(Debug)]
pub struct PlayerName(pub String);

impl View for PlayerName {
    type V = Seq<char>;

    open spec fn view(&self) -> Seq<char> {
        self.0@
    }
}

impl Clone for PlayerName {
    fn clone(&self) -> (r: Self)
        ensures
            r@ == self@,
    {
        PlayerName(self.0.clone())
    }
}

impl PlayerName {
    /// The name as a borrowed string slice.
    pub fn as_str(&self) -> (r: &str)
        ensures
            r@ == self@,
    {
        self.0.as_str()
    }
}

/// The mathematical value of a [`Player`]: its name as a character
/// sequence, its kind, and its hand as a card sequence.
pub struct PlayerV {
    pub name: Seq<char>,
    pub human: bool,
    pub hand: Seq<Card>,
}

/// One seat at the table: a unique name, whether a human answers the
/// prompts, and the cards currently held.
#[derive(Debug)]
pub struct Player {
    pub name: PlayerName,
    pub human: bool,
    pub hand: Vec<Card>,
}

impl View for Player {
    type V = PlayerV;

    open spec fn view(&self) -> PlayerV {
        PlayerV { name: self.name@, human: self.human, hand: self.hand@ }
    }
}

impl Clone for Player {
    fn clone(&self) -> (r: Self)
        ensures
            r@ == self@,
    {
        let hand = clone_cards(&self.hand);
        Player { name: self.name.clone(), human: self.human, hand }
    }
}

/// Copies a sequence of cards element by element.
pub fn clone_cards(cards: &Vec<Card>) -> (r: Vec<Card>)
    ensures
        r@ == cards@,
{
    let mut out: Vec<Card> = Vec::new();
    let mut i: usize = 0;
    while i < cards.len()
        invariant
            i <= cards@.len(),
            out@ == cards@.subrange(0, i as int),
        decreases cards@.len() - i,
    {
        out.push(cards[i]);
        proof {
            assert(out@ =~= cards@.subrange(0, i + 1 as int));
        }
        i = i + 1;
    }
    proof {
        assert(out@ =~= cards@);
    }
    out
}

/// The cards played so far in the current trick, in play order. The suit
/// of the first card is the trick's led suit.
#[derive(Debug)]
pub struct Trick(pub Vec<Card>);

impl View for Trick {
    type V = Seq<Card>;

    open spec fn view(&self) -> Seq<Card> {
        self.0@
    }
}

impl Clone for Trick {
    fn clone(&self) -> (r: Self)
        ensures
            r@ == self@,
    {
        Trick(clone_cards(&self.0))
    }
}

impl Trick {
    /// An empty trick, before anyone has played.
    pub fn new() -> (r: Self)
        ensures
            r@ == Seq::<Card>::empty(),
    {
        Trick(Vec::new())
    }
}

impl Default for Trick {
    fn default() -> (r: Self)
        ensures
            r@ == Seq::<Card>::empty(),
    {
        Trick::new()
    }
}

/// The round-public facts about one player: the current guess (unset
/// until the guessing phase reaches the player), the tricks won this
/// round, and the cumulative game score.
#[derive(Clone, Copy, Debug, PartialEq, Eq, Structural)]
pub struct PublicState {
    pub guess: Option<usize>,
    pub wins: usize,
    pub score: usize,
}

/// The public state of every seat, paired with the seat's name, in the
/// current seating order; broadcast payloads carry the whole list.
pub type StatePerPlayer = Vec<(PlayerName, PublicState)>;

/// The mathematical value of a [`StatePerPlayer`] list.
pub open spec fn state_view(s: StatePerPlayer) -> Seq<(Seq<char>, PublicState)> {
    s@.map_values(|p: (PlayerName, PublicState)| (p.0@, p.1))
}

} // verus!

//! The wire protocol: a closed set of tagged variants covering every
//! prompt, broadcast, and reply context the engine exchanges with players.

use vstd::prelude::*;

use crate::cards::Card;
use crate::structs::{Player, PlayerV, PublicState, StatePerPlayer, Trick};

verus! {

/// One unit of engine-to-player communication. Every variant renders as
/// one line of human-readable text (see [`crate::format`]) and as one
/// structured line (see [`crate::codec`]).
#[derive(Debug)]
pub enum Message {
    /// Prompt context for a guess: the addressed player, the fresh hand,
    /// the guesses made earlier this round, and the number of players.
    RequestGuessContext { player: Player, hand: Vec<Card>, guesses: Vec<usize>, players: usize },
    /// Broadcast of everyone's guesses after the guessing phase.
    Guesses { state: StatePerPlayer },
    /// Broadcast naming whose turn it is.
    Turn { whose: Player },
    /// Prompt context for a play: the addressed player, the hand, the
    /// trick so far, and the currently legal hand indices (unset when any
    /// card may be played).
    PlayRequestContext {
        player: Player,
        hand: Vec<Card>,
        trick: Trick,
        valid_cards: Option<Vec<usize>>,
    },
    /// Broadcast of the trick after a card was played.
    Trick(Trick),
    /// Broadcast of the full scoreboard.
    Scoreboard { state: StatePerPlayer },
    /// Broadcast naming the winner of a trick.
    Winner(Player),
    /// Final broadcast: the seating order and the seats that won overall.
    Winners { players: Vec<Player>, winner_indices: Vec<usize> },
    /// Handshake prompt asking a fresh connection for its player name.
    RequestPlayerName,
    /// Prompt asking the named player to pick a card index.
    PlayRequest(Player),
    /// Prompt asking for an integer guess.
    RequestGuess,
    /// Final notice that the game is over.
    GameOver,
}

/// The mathematical value of a [`Message`], with sequences in place of
/// vectors and strings.
pub enum MessageV {
    RequestGuessContext { player: PlayerV, hand: Seq<Card>, guesses: Seq<usize>, players: usize },
    Guesses { state: Seq<(Seq<char>, PublicState)> },
    Turn { whose: PlayerV },
    PlayRequestContext {
        player: PlayerV,
        hand: Seq<Card>,
        trick: Seq<Card>,
        valid_cards: Option<Seq<usize>>,
    },
    Trick { cards: Seq<Card> },
    Scoreboard { state: Seq<(Seq<char>, PublicState)> },
    Winner { player: PlayerV },
    Winners { players: Seq<PlayerV>, winner_indices: Seq<usize> },
    RequestPlayerName,
    PlayRequest { player: PlayerV },
    RequestGuess,
    GameOver,
}

/// The mathematical value of a state list: names as sequences.
pub open spec fn state_pairs(s: Seq<(crate::structs::PlayerName, PublicState)>) -> Seq<
    (Seq<char>, PublicState),
> {
    s.map_values(|p: (crate::structs::PlayerName, PublicState)| (p.0@, p.1))
}

/// The mathematical value of a player list.
pub open spec fn player_views(s: Seq<Player>) -> Seq<PlayerV> {
    s.map_values(|p: Player| p@)
}

impl View for Message {
    type V = MessageV;

    open spec fn view(&self) -> MessageV {
        match self {
            Message::RequestGuessContext { player, hand, guesses, players } => {
                MessageV::RequestGuessContext {
                    player: player@,
                    hand: hand@,
                    guesses: guesses@,
                    players: *players,
                }
            },
            Message::Guesses { state } => MessageV::Guesses { state: state_pairs(state@) },
            Message::Turn { whose } => MessageV::Turn { whose: whose@ },
            Message::PlayRequestContext { player, hand, trick, valid_cards } => {
                MessageV::PlayRequestContext {
                    player: player@,
                    hand: hand@,
                    trick: trick@,
                    valid_cards: match valid_cards {
                        Some(v) => Some(v@),
                        None => None,
                    },
                }
            },
            Message::Trick(trick) => MessageV::Trick { cards: trick@ },
            Message::Scoreboard { state } => MessageV::Scoreboard { state: state_pairs(state@) },
            Message::Winner(player) => MessageV::Winner { player: player@ },
            Message::Winners { players, winner_indices } => {
                MessageV::Winners {
                    players: player_views(players@),
                    winner_indices: winner_indices@,
                }
            },
            Message::RequestPlayerName => MessageV::RequestPlayerName,
            Message::PlayRequest(player) => MessageV::PlayRequest { player: player@ },
            Message::RequestGuess => MessageV::RequestGuess,
            Message::GameOver => MessageV::GameOver,
        }
    }
}

} // verus!

//! Verified game logic for Plump, a trick-taking card game.
//!
//! The library covers the deck and dealing primitives, the guess and trick
//! rules with their validation invariants, the round state machine, the
//! automated-player policies, and the wire protocol (a human-readable text
//! rendering and a structured line codec with a proved round trip).
//! Networking lives outside the library, behind the [`game::Communicator`]
//! trait.

pub mod cards;
pub mod structs;
pub mod message;
pub mod game;
pub mod text;
pub mod policy;
pub mod format;
pub mod codec;
pub mod session;

pub use cards::Card;

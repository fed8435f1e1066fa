//! Verified core of a multiplayer word-guessing game.
//!
//! A round of the game is driven by a [`session::GameSession`]: it holds the
//! secret word, the set of guessed letters and the failure count, classifies
//! every guess as `Won`, `Lost` or `Continue`, and renders the masked
//! progress of the word. The [`protocol`] module composes the exact lines
//! that the server sends over the wire. Network I/O and the round loop live
//! outside this crate; they feed raw input lines into the session and write
//! the returned strings to the players.

pub mod protocol;
pub mod session;
pub mod text;

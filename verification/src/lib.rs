//! Turn-based card games and the sessions that host them.
//!
//! - [`primitives`]: cards, players, the statuses a game reports and the
//!   [`primitives::Game`] trait that every game implements.
//! - [`games`]: the card arithmetic that the games share, and the games
//!   themselves: Briscola, Beccaccino and a placeholder for Scala 40.
//! - [`score`], [`utils`], [`text`], [`token`]: scores in lowest terms,
//!   decks and names, texts, and what buttons send back.
//! - [`telegram`], [`dispatch`]: messages, who is told what, and one
//!   message per recipient.
//! - [`threading`], [`game_agent`]: the commands of a session and the
//!   worker that handles them.
//! - [`bot`]: the registry of sessions.
//!
//! Nothing in this crate sends, waits or reads a clock: the worker and the
//! registry say what is to be done, and their caller does it.

pub mod bot;
pub mod dispatch;
pub mod game_agent;
pub mod games;
pub mod primitives;
pub mod score;
pub mod telegram;
pub mod text;
pub mod threading;
pub mod token;
pub mod utils;

//! Move-legality and scoring engine for Dame de Pique, a four-player,
//! two-team partnered rummy-style card game.
//!
//! Players meld triples of equal-rank cards to "open", accumulate melded
//! cards into a shared team points deck, and carry a running score across
//! rounds. This crate holds the rules themselves: the opening validator,
//! the team open-status state machine, the points ledger, the move
//! dispatcher and the round/game-over scoring rollup, each with a verified
//! contract. Transport and session plumbing live outside the crate.

pub mod config;
pub mod counting;
pub mod deck;
pub mod error;
pub mod gameplay;
pub mod models;
pub mod partners;
pub mod player;
pub mod state;

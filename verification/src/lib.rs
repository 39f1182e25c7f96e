//! A verified engine for a single hand of multi-player Texas Hold'em:
//! a hand-ranking evaluator with tie-break metadata, and the betting /
//! phase state machine that validates wagers, tracks the pot and drives
//! the game from the first deal to showdown.

pub mod card;
pub mod hand;
mod rng;
pub mod player;
pub mod dealer;
pub mod poker_game;
pub mod rules;

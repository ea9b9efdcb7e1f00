//! A Farkle-style dice game: the scoring rules, a player's turn strategy, the
//! round state machine with its final round, and the tally of wins per
//! aggression value, each with a machine-checked contract.

pub mod game;
pub mod game_logic;
pub mod master;
pub mod player;
pub mod report;
pub mod worker;

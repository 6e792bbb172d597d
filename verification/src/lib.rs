//! A gravity-drop grid game for two players: a board of independent column
//! stacks, and the rules that decide whether a player has formed a winning run.

pub mod board;
pub mod game;
pub mod rules;

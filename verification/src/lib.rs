//! A minesweeper board: the rules of the game, its flood fill and its
//! bomb placement, with the contracts that they keep.

pub mod board;
pub mod flood;
pub mod game;
pub mod laws;
pub mod lemmas;
pub mod placement;
pub mod random;
pub mod rules;
pub mod screen;
pub mod style;

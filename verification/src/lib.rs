//! Sueca card game: cards, tricks ("rounds"), scoring, the game's state
//! machine and the encoding of a player's view of the table.

pub mod card;
pub mod deck;
pub mod round;
pub mod state;
pub mod game;

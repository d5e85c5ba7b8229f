//! The court and the players that stand on it.
pub mod court;
pub mod player;

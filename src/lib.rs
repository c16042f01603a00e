//! Betting, probability and turn-resolution engine for Perudo-style bluffing
//! games, played either with dice or with letter tiles.
pub mod bet;
pub mod chance;
pub mod dict;
pub mod die;
pub mod game;
pub mod hand;
pub mod input;
pub mod player;
pub mod random;
pub mod select;
pub mod tile;

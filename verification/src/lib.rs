//! A turn-based village game: player-programmed "mini" agents run a small
//! instruction language against a village of villagers, some of whom are
//! murderers; each night the murderers strike back.

pub mod game;
pub mod mini;
pub mod player;
mod rng;
pub mod uni;
pub mod village;

//! Rating periods for a competitive ladder: the outcomes of a period are
//! grouped by player, each player's update is laid out against the ratings
//! held at the start of the period, and the computed ratings are installed
//! only where they are valid.

pub mod instant;
pub mod outcome;
pub mod table;
pub mod grouper;
pub mod binary64;
pub mod player;
pub mod engine;
pub mod solver;

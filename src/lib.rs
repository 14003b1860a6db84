//! A turn-based territorial conquest engine: planets produce ships, players
//! queue fleets between planets, and each turn moves the fleets and settles
//! the fights they start.

pub mod model;
pub mod geometry;
pub mod random;
pub mod combat;
pub mod names;
pub mod sums;
pub mod game;
pub mod turn;
pub mod laws;
pub mod cli;

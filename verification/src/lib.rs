//! A system monitor for Steam games: the verified core of its game
//! detection, GPU probing, row ordering and key handling.

pub mod text;
pub mod gpu;
pub mod games;
pub mod rows;
pub mod monitor;


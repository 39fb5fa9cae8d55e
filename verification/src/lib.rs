//! Authoritative-state synchronisation for a small multiplayer movement
//! simulation, in fixed-point arithmetic.

pub mod authority;
pub mod client;
pub mod entity;
pub mod motion;
pub mod protocol;
pub mod random;
pub mod roster;
pub mod server;
pub mod table;
pub mod vector;

//! A turn-based multiplayer farming simulation: the world model, the action
//! resolver, the turn scheduler and the lobby decisions, all verified.

pub mod pos;
pub mod ground;
pub mod harvest;
pub mod seed;
pub mod plant;
pub mod cell;
pub mod chance;
pub mod map;
pub mod drawing;
pub mod message;
pub mod player;
pub mod actions;
pub mod moves;
pub mod game;
pub mod lobby;
pub mod laws;

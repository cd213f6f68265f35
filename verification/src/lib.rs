//! The rules of a small side-scrolling platformer, apart from any engine:
//! which states the game is in and which systems run in them, how a level's
//! wall tiles become few colliders, how ground contact follows from overlap
//! events, how the kiwi moves and animates, and when bugs are spawned.
//!
//! Entities are known by number. Times are whole nanoseconds, velocities
//! whole units per second, and lengths whole tiles.
use vstd::prelude::*;

pub mod bug;
pub mod kiwi;
pub mod level;
pub mod sensor;
pub mod state;
pub mod timer;
pub mod walls;

//! An ant colony that forages by pheromone trails: markers and food on
//! spatial hash grids, a collision field, the agents' state machine and the
//! hive's ledger, all in fixed-point integers.

pub mod ants;
pub mod config;
pub mod food;
pub mod game_objects;
pub mod gameplay;
pub mod gobj;
pub mod grid;
pub mod hive;
pub mod markers;
pub mod maths;
pub mod particles;
pub mod player;
pub mod resources;
pub mod scout;
pub mod signals;
pub mod vector;
pub mod world;

//! Grid, dungeon-generation, path-finding, inventory, message-log and
//! player-state logic of an isometric dungeon crawler.

pub mod components;
pub mod pos_map;
pub mod map;
pub mod rng;
pub mod mapgen;
pub mod pathfind;
pub mod reach;
pub mod log;
pub mod inventory;
pub mod player;
pub mod actions;

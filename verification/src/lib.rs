//! A turn-based grid-dungeon exploration core: procedural dungeon
//! generation, occlusion-aware field-of-view with dirty-tracking, and a
//! line-of-sight sensing check for monsters.

pub mod components;
pub mod geometry;
pub mod map;
mod rng;
pub mod systems;
pub mod turn;
pub mod visibility;

//! A dungeon crawler on a character grid: rooms, walls, fog and minions,
//! each an entity made of components.

pub mod components;
pub mod event;
pub mod create;
pub mod entity;
pub mod letters;
pub mod render;
pub mod rooms;
pub mod state;
pub mod systems;

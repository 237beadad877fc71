//! A word-game dungeon crawler: entities made of components, the items and
//! effects that change the letter scoring, and the pieces of drawing logic
//! that do not depend on the graphics stack.

pub mod colors;
pub mod components;
pub mod create;
pub mod dialogue;
pub mod effects;
pub mod entity;
pub mod game;
pub mod inputs;
pub mod handling;
pub mod equality;
pub mod event;

pub mod items;
pub mod letters;
pub mod render;
pub mod riddles;
pub mod sight;
pub mod state;
pub mod systems;
pub mod touch;
pub mod walk;


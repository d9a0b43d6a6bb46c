//! A turn-based dungeon crawler: a procedurally generated grid dungeon, the
//! player and the monsters that live in it, and the rules by which they move,
//! fight, use items and grow stronger.
//!
//! Rendering, keyboard and mouse handling and persistence are left to the
//! program around this library, which hands over plain values (a player
//! intent, a visibility mask, a targeted tile) and reads the world back.

pub mod colors;
pub mod dice;
pub mod text;
pub mod transition;
pub mod panel;
pub mod equipment;
pub mod map;
pub mod reach;
pub mod spawn;
pub mod game;
pub mod game_object;
pub mod fov;
pub mod targeting;
pub mod inventory;
pub mod progress;
pub mod ai;
pub mod menu;
pub mod safety;

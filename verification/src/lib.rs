//! A tiny pixel frame buffer, and the simple space-shooter game that demonstrates it.
//!
//! The GPU plumbing lives with the application; this library holds the logic that decides what a
//! pixel buffer is and how the game world behaves, with its contracts proved.

pub mod geo;
pub mod sprites;
pub mod loader;
pub mod timing;
pub mod controls;
pub mod invaders;
pub mod collision;
pub mod texture;
pub mod buffer;
pub mod mocks;
pub mod world;
pub mod lasers;
pub mod update;
pub mod draw;

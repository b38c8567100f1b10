//! A verified core for a fixed-grid arcade shooter.
//!
//! The library holds the per-tick simulation: entity motion, enemy fire
//! selection, collision resolution, wave progression and score keeping,
//! together with the pixel compositor and the sprite table that the
//! simulation draws with. A thin unverified driver owns the window and
//! feeds key state in and pixel buffers out.

pub mod color;
pub mod compositor;
pub mod drawings;
pub mod laws;
pub mod render;
pub mod rng;
pub mod state;
pub mod step;

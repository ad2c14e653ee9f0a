//! The core of a grid-based snake game: a registry of game objects driven by
//! capability, an all-pairs collision sweep over axis-aligned boxes, and the
//! snake's movement and growth state machine. Lengths are in thousandths of a
//! pixel and times in microseconds, so that every rule is exact integer
//! arithmetic.

pub mod app;
pub mod app_owned_data;
pub mod board;
pub mod collider;
pub mod food;
pub mod snek;

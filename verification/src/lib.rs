//! A brick-breaking arcade simulation on fixed-point coordinates.
//!
//! Positions and sizes are whole numbers of nano-pixels, directions are
//! thousandths of a unit vector and time steps are microseconds, so that one
//! frame's displacement `direction * dt * speed` is exact.

pub mod geometry;
pub mod entities;
pub mod level;
pub mod session;

//! Core of a small brick-breaking arcade game: geometry, entities, and the
//! per-tick motion-and-collision engine, all verified.  Velocities are
//! direction vectors held in thousandths (milli-units) and kept at unit
//! magnitude; positions are whole pixels.  Rendering, input and timing are
//! left to the surrounding application, which drives this library once per
//! frame.

pub mod entities;
pub mod fixed;
pub mod game;
pub mod geometry;
pub mod random;

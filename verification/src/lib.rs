//! Exact two-dimensional ray casting on the integer lattice.
//!
//! An emitter stands at a lattice point and carries a fan of rays, one for
//! each whole degree. Each ray is tested against a list of walls, and the
//! crossing nearest to the emitter is kept. Coordinates are integers and
//! crossings are fractions of integers, so every decision is exact.

pub mod arith;
pub mod geometry;
pub mod heading;
pub mod ray;
pub mod incidence;
pub mod nearest;
pub mod emitter;

//! Structural and dynamical analysis of periodic water trajectories.
//!
//! Lengths are held as integers in a fixed unit (see
//! [`geometry::UNITS_PER_ANGSTROM`]), so that every comparison against a
//! cutoff, every histogram bin and every unwrapped displacement is decided
//! exactly. Quantities that are irrational in general (a distance, an angle,
//! a normalised radial distribution) are reported through exact integer
//! terms from which the caller forms the final floating-point value.

pub mod cov;
pub mod distance;
pub mod error;
pub mod geometry;
pub mod hb;
pub mod model;
pub mod msd;
pub mod q;
pub mod rdf;

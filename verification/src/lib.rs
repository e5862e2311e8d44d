//! Segments of polynomial curves over a vector space, and the quintic
//! Hermite construction of a chain of them from positions, velocities and
//! accelerations.
//!
//! A vector is known to the contracts by its real coordinates and a scalar by
//! the real number it stands for (`vector_space`); a segment is, in each
//! coordinate, a real polynomial (`segment`), of which `polynomial` holds the
//! arithmetic and its laws; `quintic` holds the builder and the laws of
//! Hermite interpolation.

pub mod cubic;
pub mod polynomial;
pub mod quintic;
pub mod segment;
pub mod vector_space;

pub use segment::PolynomialSegment;
pub use vector_space::VectorSpace;

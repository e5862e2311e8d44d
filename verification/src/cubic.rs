use vstd::prelude::*;
use crate::segment::PolynomialSegment;

verus! {

/// A polynomial curve segment of order 4: a cubic.
pub type CubicSegment<P> = PolynomialSegment<4, P>;

} // verus!

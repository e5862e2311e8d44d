use vstd::prelude::*;

verus! {

/// A vector space over the reals, as far as curves need one: a zero, an
/// addition and a multiplication by scalars.
///
/// The contracts of this crate speak of a vector through its coordinates
/// (`coord`) and of a scalar through the real number that it stands for
/// (`scalar_value`). The `ensures` clauses below are the algebraic contract
/// that an implementation owes: each operation acts coordinate by
/// coordinate, in exact real arithmetic. What this crate proves about curves
/// holds for every implementation that keeps this contract; for one that
/// rounds, as floating point does, it holds up to that rounding.
pub trait VectorSpace: Copy {
    /// The executable type of the scalars.
    type Scalar: Copy;

    /// The `j`-th coordinate of a vector. A space of dimension `n` uses the
    /// coordinates `0..n` and leaves the others at zero.
    ///
    /// Unspecified unless an implementation defines it: one that is compiled
    /// without being verified has no need to.
    open spec fn coord(&self, j: int) -> real {
        arbitrary()
    }

    /// The real number that a scalar stands for. Unspecified unless an
    /// implementation defines it.
    open spec fn scalar_value(k: Self::Scalar) -> real {
        arbitrary()
    }

    /// The scalar `num / den`.
    fn scalar_from_ratio(num: i64, den: u64) -> (k: Self::Scalar)
        requires
            den != 0,
        ensures
            Self::scalar_value(k) == num as real / den as real,
    ;

    /// The scalar `n`.
    fn scalar_from_nat(n: u128) -> (k: Self::Scalar)
        ensures
            Self::scalar_value(k) == n as real,
    ;

    /// The additive identity: every coordinate is zero.
    fn zero() -> (z: Self)
        ensures
            forall|j: int| #[trigger] z.coord(j) == 0real,
    ;

    /// The sum of two vectors.
    fn add(self, rhs: Self) -> (sum: Self)
        ensures
            forall|j: int| #[trigger] sum.coord(j) == self.coord(j) + rhs.coord(j),
    ;

    /// The vector multiplied by the scalar `k`.
    fn scale(self, k: Self::Scalar) -> (scaled: Self)
        ensures
            forall|j: int| #[trigger] scaled.coord(j) == self.coord(j) * Self::scalar_value(k),
    ;
}

/// The `j`-th coordinates of the vectors `vs`, in their order.
pub open spec fn coords_of<P: VectorSpace>(vs: Seq<P>, j: int) -> Seq<real> {
    Seq::new(vs.len(), |i: int| vs[i].coord(j))
}

/// The real numbers that the scalars `ks` stand for, in their order.
pub open spec fn values_of<P: VectorSpace>(ks: Seq<P::Scalar>) -> Seq<real> {
    Seq::new(ks.len(), |i: int| P::scalar_value(ks[i]))
}

} // verus!

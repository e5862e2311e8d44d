use vstd::prelude::*;
use crate::polynomial::{
    derivative, dot, horner_from, lemma_horner_is_poly_value, matrix_apply, poly_value,
};
use crate::vector_space::{coords_of, values_of, VectorSpace};

verus! {

/// A segment of a polynomial curve: `ORDER` coefficients in a vector space,
/// lowest degree first. It is evaluated as a parametric curve, by custom over
/// the domain `[0, 1)`; segments can be chained to form a longer curve.
#[derive(Copy, Clone, Debug, PartialEq)]
pub struct PolynomialSegment<const ORDER: usize, P: VectorSpace> {
    /// Polynomial coefficients of the segment: `coefficients[i]` multiplies
    /// the `i`-th power of the parameter.
    pub coefficients: [P; ORDER],
}

impl<const ORDER: usize, P: VectorSpace> PolynomialSegment<ORDER, P> {
    /// The real polynomial that the segment is in its `j`-th coordinate, as
    /// its `ORDER` coefficients, lowest degree first.
    pub open spec fn coordinate(&self, j: int) -> Seq<real> {
        coords_of(self.coefficients@, j)
    }

    /// Position of a point at the parametric value `t`: in every coordinate,
    /// the value of the segment's polynomial at `t`.
    pub fn position(&self, t: P::Scalar) -> (point: P)
        ensures
            forall|j: int| #[trigger]
                point.coord(j) == poly_value(self.coordinate(j), P::scalar_value(t)),
    {
        if ORDER == 0 {
            return P::zero();
        }
        let mut i: usize = ORDER - 1;
        let mut point = self.coefficients[i];
        proof {
            assert forall|j: int| #[trigger]
                point.coord(j) == horner_from(self.coordinate(j), P::scalar_value(t), i as int) by {
                assert(horner_from(self.coordinate(j), P::scalar_value(t), i + 1) == 0real);
            }
        }
        while i > 0
            invariant
                i < ORDER,
                forall|j: int| #[trigger]
                    point.coord(j) == horner_from(
                        self.coordinate(j),
                        P::scalar_value(t),
                        i as int,
                    ),
            decreases i,
        {
            i = i - 1;
            point = self.coefficients[i].add(point.scale(t));
        }
        proof {
            assert forall|j: int| #[trigger]
                point.coord(j) == poly_value(self.coordinate(j), P::scalar_value(t)) by {
                lemma_horner_is_poly_value(self.coordinate(j), P::scalar_value(t));
            }
        }
        point
    }

    /// Velocity of a point at the parametric value `t`: in every coordinate,
    /// the value at `t` of the derivative of the segment's polynomial.
    pub fn velocity(&self, t: P::Scalar) -> (rate: P)
        ensures
            forall|j: int| #[trigger]
                rate.coord(j) == poly_value(derivative(self.coordinate(j)), P::scalar_value(t)),
    {
        if ORDER <= 1 {
            return P::zero();
        }
        let mut i: usize = ORDER - 1;
        let mut rate = self.coefficients[i].scale(P::scalar_from_nat(i as u128));
        proof {
            assert forall|j: int| #[trigger]
                rate.coord(j) == horner_from(
                    derivative(self.coordinate(j)),
                    P::scalar_value(t),
                    i - 1,
                ) by {
                assert(horner_from(
                    derivative(self.coordinate(j)),
                    P::scalar_value(t),
                    i as int,
                ) == 0real);
            }
        }
        while i > 1
            invariant
                1 <= i < ORDER,
                forall|j: int| #[trigger]
                    rate.coord(j) == horner_from(
                        derivative(self.coordinate(j)),
                        P::scalar_value(t),
                        i - 1,
                    ),
            decreases i,
        {
            i = i - 1;
            rate = self.coefficients[i].scale(P::scalar_from_nat(i as u128)).add(rate.scale(t));
        }
        proof {
            assert forall|j: int| #[trigger]
                rate.coord(j) == poly_value(
                    derivative(self.coordinate(j)),
                    P::scalar_value(t),
                ) by {
                lemma_horner_is_poly_value(derivative(self.coordinate(j)), P::scalar_value(t));
            }
        }
        rate
    }

    /// Acceleration of a point at the parametric value `t`: in every
    /// coordinate, the value at `t` of the second derivative of the segment's
    /// polynomial.
    pub fn acceleration(&self, t: P::Scalar) -> (change: P)
        ensures
            forall|j: int| #[trigger]
                change.coord(j) == poly_value(
                    derivative(derivative(self.coordinate(j))),
                    P::scalar_value(t),
                ),
    {
        if ORDER <= 2 {
            return P::zero();
        }
        let mut i: usize = ORDER - 1;
        let mut change = self.coefficients[i].scale(P::scalar_from_nat(falling_pair(i)));
        proof {
            assert forall|j: int| #[trigger]
                change.coord(j) == horner_from(
                    derivative(derivative(self.coordinate(j))),
                    P::scalar_value(t),
                    i - 2,
                ) by {
                lemma_second_derivative_term(self.coordinate(j), i as int);
                assert(horner_from(
                    derivative(derivative(self.coordinate(j))),
                    P::scalar_value(t),
                    i - 1,
                ) == 0real);
            }
        }
        while i > 2
            invariant
                2 <= i < ORDER,
                forall|j: int| #[trigger]
                    change.coord(j) == horner_from(
                        derivative(derivative(self.coordinate(j))),
                        P::scalar_value(t),
                        i - 2,
                    ),
            decreases i,
        {
            let ghost above = change;
            i = i - 1;
            change = self.coefficients[i].scale(P::scalar_from_nat(falling_pair(i))).add(
                change.scale(t),
            );
            proof {
                assert forall|j: int| #[trigger]
                    change.coord(j) == horner_from(
                        derivative(derivative(self.coordinate(j))),
                        P::scalar_value(t),
                        i - 2,
                    ) by {
                    lemma_second_derivative_term(self.coordinate(j), i as int);
                    assert(above.coord(j) == horner_from(
                        derivative(derivative(self.coordinate(j))),
                        P::scalar_value(t),
                        i - 1,
                    ));
                }
            }
        }
        proof {
            assert forall|j: int| #[trigger]
                change.coord(j) == poly_value(
                    derivative(derivative(self.coordinate(j))),
                    P::scalar_value(t),
                ) by {
                lemma_horner_is_poly_value(
                    derivative(derivative(self.coordinate(j))),
                    P::scalar_value(t),
                );
            }
        }
        change
    }

    /// The segment whose coefficients are the rows of `char_matrix` applied
    /// to the control values `p`: coefficient `row` is the sum over `col` of
    /// `p[col]` times `char_matrix[row][col]`.
    pub(crate) fn coefficients(p: [P; ORDER], char_matrix: [[P::Scalar; ORDER]; ORDER]) -> (segment:
        Self)
        ensures
            forall|j: int| #[trigger]
                segment.coordinate(j) == matrix_apply(
                    matrix_values::<ORDER, P>(char_matrix),
                    coords_of(p@, j),
                ),
    {
        let mut coefficients: [P; ORDER] = p;
        let mut row: usize = 0;
        while row < ORDER
            invariant
                row <= ORDER,
                forall|r: int, j: int|
                    0 <= r < row ==> #[trigger] coefficients[r].coord(j) == dot(
                        coords_of(p@, j),
                        values_of::<P>(char_matrix[r]@),
                    ),
            decreases ORDER - row,
        {
            let mut sum = P::zero();
            let mut col: usize = 0;
            while col < ORDER
                invariant
                    row < ORDER,
                    col <= ORDER,
                    forall|j: int| #[trigger]
                        sum.coord(j) == dot(
                            coords_of(p@, j).take(col as int),
                            values_of::<P>(char_matrix[row as int]@),
                        ),
                decreases ORDER - col,
            {
                let ghost before = sum;
                sum = sum.add(p[col].scale(char_matrix[row][col]));
                proof {
                    assert forall|j: int| #[trigger]
                        sum.coord(j) == dot(
                            coords_of(p@, j).take(col + 1),
                            values_of::<P>(char_matrix[row as int]@),
                        ) by {
                        let x = coords_of(p@, j);
                        assert(x.take(col + 1).drop_last() =~= x.take(col as int));
                        assert(before.coord(j) == dot(
                            x.take(col as int),
                            values_of::<P>(char_matrix[row as int]@),
                        ));
                    }
                }
                col = col + 1;
            }
            proof {
                assert forall|j: int| #[trigger]
                    sum.coord(j) == dot(
                        coords_of(p@, j),
                        values_of::<P>(char_matrix[row as int]@),
                    ) by {
                    let x = coords_of(p@, j);
                    assert(x.take(ORDER as int) =~= x);
                }
            }
            coefficients[row] = sum;
            row = row + 1;
        }
        let segment = PolynomialSegment { coefficients };
        proof {
            assert forall|j: int| #[trigger]
                segment.coordinate(j) == matrix_apply(
                    matrix_values::<ORDER, P>(char_matrix),
                    coords_of(p@, j),
                ) by {
                assert(segment.coordinate(j) =~= matrix_apply(
                    matrix_values::<ORDER, P>(char_matrix),
                    coords_of(p@, j),
                ));
            }
        }
        segment
    }
}

/// The real numbers that the entries of a square matrix of scalars stand
/// for, row by row.
pub open spec fn matrix_values<const N: usize, P: VectorSpace>(m: [[P::Scalar; N]; N]) -> Seq<
    Seq<real>,
> {
    Seq::new(N as nat, |row: int| values_of::<P>(m[row]@))
}

/// `i * (i - 1)`, the factor that the second derivative puts before the
/// coefficient of degree `i`; it fits 128 bits whatever `i` is.
fn falling_pair(i: usize) -> (f: u128)
    requires
        i >= 1,
    ensures
        f == i * (i - 1),
{
    assert(i * (i - 1) <= 0xffff_ffff_ffff_ffff * 0xffff_ffff_ffff_ffff) by (nonlinear_arith)
        requires
            1 <= i <= 0xffff_ffff_ffff_ffff,
    ;
    (i as u128) * ((i - 1) as u128)
}

/// The second derivative puts the factor `i * (i - 1)` before the
/// coefficient of degree `i`, which becomes that of degree `i - 2`.
proof fn lemma_second_derivative_term(a: Seq<real>, i: int)
    requires
        2 <= i < a.len(),
    ensures
        derivative(derivative(a))[i - 2] == a[i] * ((i * (i - 1)) as real),
{
    let x = a[i];
    let m = i as real;
    let n = (i - 1) as real;
    assert(derivative(a)[i - 1] == x * m);
    assert(derivative(derivative(a))[i - 2] == (x * m) * n);
    assert((x * m) * n == x * (m * n)) by (nonlinear_arith);
    assert((i * (i - 1)) as real == m * n) by (nonlinear_arith)
        requires
            m == i as real,
            n == (i - 1) as real,
    ;
}

} // verus!

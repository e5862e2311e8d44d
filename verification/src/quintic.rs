use vstd::prelude::*;
use crate::polynomial::{
    derivative, dot, horner_from, lemma_derivative_of_zeros, lemma_derivative_scaled,
    lemma_horner_is_poly_value, lemma_matrix_apply_scaled, lemma_matrix_apply_zeros,
    lemma_poly_value_of_zeros, lemma_poly_value_scaled, matrix_apply, poly_value, scaled, zeros,
};
use crate::segment::{matrix_values, PolynomialSegment};
use crate::vector_space::{coords_of, VectorSpace};

verus! {

/// The characteristic matrix of the quintic Hermite basis. Row `i` gives the
/// coefficient of degree `i` of a segment from its six boundary values: the
/// position, velocity and acceleration at the start, then those at the end.
pub open spec fn hermite_matrix() -> Seq<Seq<real>> {
    seq![
        seq![1real, 0real, 0real, 0real, 0real, 0real],
        seq![0real, 1real, 0real, 0real, 0real, 0real],
        seq![0real, 0real, 1real / 2real, 0real, 0real, 0real],
        seq![-10real, -6real, -3real / 2real, 10real, -4real, 1real / 2real],
        seq![15real, 8real, 3real / 2real, -15real, 7real, -1real],
        seq![-6real, -3real, -1real / 2real, 6real, -3real, 1real / 2real],
    ]
}

/// The six coefficients, lowest degree first, of the quintic polynomial with
/// the boundary values `x`.
pub open spec fn hermite_coefficients(x: Seq<real>) -> Seq<real> {
    matrix_apply(hermite_matrix(), x)
}

/// The `j`-th coordinates of the boundary values of a segment that runs from
/// the control triple `from` to the control triple `to`.
pub open spec fn boundary_values<P: VectorSpace>(from: (P, P, P), to: (P, P, P), j: int) -> Seq<
    real,
> {
    seq![
        from.0.coord(j),
        from.1.coord(j),
        from.2.coord(j),
        to.0.coord(j),
        to.1.coord(j),
        to.2.coord(j),
    ]
}

/// A builder of a chain of quintic segments through control triples, each a
/// position with the velocity and the acceleration that the curve has there.
pub struct QuinticHermite<P> {
    points: Vec<(P, P, P)>,
}

impl<P: VectorSpace> QuinticHermite<P> {
    /// The control triples, in the order of traversal.
    pub closed spec fn view(&self) -> Seq<(P, P, P)> {
        self.points@
    }

    /// A builder for the curve through `points`, in their order.
    pub fn new(points: Vec<(P, P, P)>) -> (builder: Self)
        ensures
            builder@ == points@,
    {
        QuinticHermite { points }
    }

    /// The characteristic matrix, in the scalars of `P`.
    fn char_matrix() -> (m: [[P::Scalar; 6]; 6])
        ensures
            matrix_values::<6, P>(m) == hermite_matrix(),
    {
        let m = [
            [
                P::scalar_from_ratio(1, 1),
                P::scalar_from_ratio(0, 1),
                P::scalar_from_ratio(0, 1),
                P::scalar_from_ratio(0, 1),
                P::scalar_from_ratio(0, 1),
                P::scalar_from_ratio(0, 1),
            ],
            [
                P::scalar_from_ratio(0, 1),
                P::scalar_from_ratio(1, 1),
                P::scalar_from_ratio(0, 1),
                P::scalar_from_ratio(0, 1),
                P::scalar_from_ratio(0, 1),
                P::scalar_from_ratio(0, 1),
            ],
            [
                P::scalar_from_ratio(0, 1),
                P::scalar_from_ratio(0, 1),
                P::scalar_from_ratio(1, 2),
                P::scalar_from_ratio(0, 1),
                P::scalar_from_ratio(0, 1),
                P::scalar_from_ratio(0, 1),
            ],
            [
                P::scalar_from_ratio(-10, 1),
                P::scalar_from_ratio(-6, 1),
                P::scalar_from_ratio(-3, 2),
                P::scalar_from_ratio(10, 1),
                P::scalar_from_ratio(-4, 1),
                P::scalar_from_ratio(1, 2),
            ],
            [
                P::scalar_from_ratio(15, 1),
                P::scalar_from_ratio(8, 1),
                P::scalar_from_ratio(3, 2),
                P::scalar_from_ratio(-15, 1),
                P::scalar_from_ratio(7, 1),
                P::scalar_from_ratio(-1, 1),
            ],
            [
                P::scalar_from_ratio(-6, 1),
                P::scalar_from_ratio(-3, 1),
                P::scalar_from_ratio(-1, 2),
                P::scalar_from_ratio(6, 1),
                P::scalar_from_ratio(-3, 1),
                P::scalar_from_ratio(1, 2),
            ],
        ];
        proof {
            assert(matrix_values::<6, P>(m) =~~= hermite_matrix());
        }
        m
    }

    /// The segments of the curve: none when there are fewer than two control
    /// triples, else one for each pair of neighbours, in their order. Segment
    /// `k` has, in every coordinate, the quintic Hermite coefficients of the
    /// boundary values that the triples `k` and `k + 1` give.
    pub fn into_segments(self) -> (segments: Option<Vec<PolynomialSegment<6, P>>>)
        ensures
            segments is None <==> self@.len() < 2,
            segments matches Some(list) ==> {
                &&& list.len() == self@.len() - 1
                &&& forall|k: int, j: int|
                    0 <= k < list.len() ==> #[trigger] list[k].coordinate(j)
                        == hermite_coefficients(boundary_values(self@[k], self@[k + 1], j))
            },
    {
        if self.points.len() < 2 {
            None
        } else {
            let matrix = Self::char_matrix();
            let mut list: Vec<PolynomialSegment<6, P>> = Vec::new();
            let mut k: usize = 0;
            while k + 1 < self.points.len()
                invariant
                    2 <= self.points.len(),
                    k + 1 <= self.points.len(),
                    list.len() == k,
                    matrix_values::<6, P>(matrix) == hermite_matrix(),
                    forall|i: int, j: int|
                        0 <= i < k ==> #[trigger] list[i].coordinate(j) == hermite_coefficients(
                            boundary_values(self@[i], self@[i + 1], j),
                        ),
                decreases self.points.len() - k,
            {
                let (a, b, c) = self.points[k];
                let (d, e, f) = self.points[k + 1];
                let segment = PolynomialSegment::coefficients([a, b, c, d, e, f], matrix);
                proof {
                    assert forall|j: int| #[trigger]
                        segment.coordinate(j) == hermite_coefficients(
                            boundary_values(self@[k as int], self@[k + 1], j),
                        ) by {
                        assert(coords_of([a, b, c, d, e, f]@, j) =~= boundary_values(
                            self@[k as int],
                            self@[k + 1],
                            j,
                        ));
                    }
                }
                list.push(segment);
                k = k + 1;
            }
            Some(list)
        }
    }
}

/// A `dot` of six terms, written out.
proof fn lemma_dot_of_six(
    x: Seq<real>,
    m: Seq<real>,
    m0: real,
    m1: real,
    m2: real,
    m3: real,
    m4: real,
    m5: real,
)
    requires
        x.len() == 6,
        m == seq![m0, m1, m2, m3, m4, m5],
    ensures
        dot(x, m) == x[0] * m0 + x[1] * m1 + x[2] * m2 + x[3] * m3 + x[4] * m4 + x[5] * m5,
{
    reveal_with_fuel(dot, 7);
}

/// The quintic Hermite coefficients of the boundary values `x`, written out.
proof fn lemma_hermite_coefficients(x: Seq<real>)
    requires
        x.len() == 6,
    ensures
        hermite_coefficients(x).len() == 6,
        hermite_coefficients(x)[0] == x[0],
        hermite_coefficients(x)[1] == x[1],
        hermite_coefficients(x)[2] == x[2] / 2real,
        hermite_coefficients(x)[3] == -10real * x[0] - 6real * x[1] - 3real * x[2] / 2real + 10real
            * x[3] - 4real * x[4] + x[5] / 2real,
        hermite_coefficients(x)[4] == 15real * x[0] + 8real * x[1] + 3real * x[2] / 2real - 15real
            * x[3] + 7real * x[4] - x[5],
        hermite_coefficients(x)[5] == -6real * x[0] - 3real * x[1] - x[2] / 2real + 6real * x[3]
            - 3real * x[4] + x[5] / 2real,
{
    let m = hermite_matrix();
    lemma_dot_of_six(x, m[0], 1real, 0real, 0real, 0real, 0real, 0real);
    lemma_dot_of_six(x, m[1], 0real, 1real, 0real, 0real, 0real, 0real);
    lemma_dot_of_six(x, m[2], 0real, 0real, 1real / 2real, 0real, 0real, 0real);
    lemma_dot_of_six(x, m[3], -10real, -6real, -3real / 2real, 10real, -4real, 1real / 2real);
    lemma_dot_of_six(x, m[4], 15real, 8real, 3real / 2real, -15real, 7real, -1real);
    lemma_dot_of_six(x, m[5], -6real, -3real, -1real / 2real, 6real, -3real, 1real / 2real);
    assert(x[2] * (-3real / 2real) == -3real * x[2] / 2real) by (nonlinear_arith);
    assert(x[2] * (-1real / 2real) == -x[2] / 2real) by (nonlinear_arith);
}

/// The first and the second derivative of a polynomial of six
/// coefficients, written out.
proof fn lemma_derivatives_of_six(c: Seq<real>)
    requires
        c.len() == 6,
    ensures
        derivative(c) == seq![c[1], 2real * c[2], 3real * c[3], 4real * c[4], 5real * c[5]],
        derivative(derivative(c)) == seq![2real * c[2], 6real * c[3], 12real * c[4], 20real * c[5]],
{
    let d = derivative(c);
    assert(d[0] == c[1] * (1 as real));
    assert(d[1] == c[2] * (2 as real));
    assert(d[2] == c[3] * (3 as real));
    assert(d[3] == c[4] * (4 as real));
    assert(d[4] == c[5] * (5 as real));
    assert(d =~= seq![c[1], 2real * c[2], 3real * c[3], 4real * c[4], 5real * c[5]]);
    let dd = derivative(d);
    assert(dd[0] == d[1] * (1 as real));
    assert(dd[1] == d[2] * (2 as real));
    assert(dd[2] == d[3] * (3 as real));
    assert(dd[3] == d[4] * (4 as real));
    assert(dd =~= seq![2real * c[2], 6real * c[3], 12real * c[4], 20real * c[5]]);
}

/// The quintic polynomial with the boundary values `x` takes them: at 0 its
/// value is `x[0]`, its first derivative `x[1]` and its second derivative
/// `x[2]`; at 1 they are `x[3]`, `x[4]` and `x[5]`.
pub proof fn lemma_hermite_takes_boundary_values(x: Seq<real>)
    requires
        x.len() == 6,
    ensures
        poly_value(hermite_coefficients(x), 0real) == x[0],
        poly_value(derivative(hermite_coefficients(x)), 0real) == x[1],
        poly_value(derivative(derivative(hermite_coefficients(x))), 0real) == x[2],
        poly_value(hermite_coefficients(x), 1real) == x[3],
        poly_value(derivative(hermite_coefficients(x)), 1real) == x[4],
        poly_value(derivative(derivative(hermite_coefficients(x))), 1real) == x[5],
{
    let c = hermite_coefficients(x);
    let d = derivative(c);
    let dd = derivative(d);
    lemma_hermite_coefficients(x);
    lemma_derivatives_of_six(c);
    lemma_horner_is_poly_value(c, 0real);
    lemma_horner_is_poly_value(d, 0real);
    lemma_horner_is_poly_value(dd, 0real);
    lemma_horner_is_poly_value(c, 1real);
    lemma_horner_is_poly_value(d, 1real);
    lemma_horner_is_poly_value(dd, 1real);
    reveal_with_fuel(horner_from, 7);
}

/// Hermite interpolation. In every coordinate, the segment that runs from
/// the control triple `from` to the control triple `to` has at 0 the
/// position, the velocity and the acceleration of `from`, and at 1 those of
/// `to`.
pub proof fn lemma_segment_interpolates<P: VectorSpace>(from: (P, P, P), to: (P, P, P), j: int)
    ensures
        ({
            let c = hermite_coefficients(boundary_values(from, to, j));
            &&& poly_value(c, 0real) == from.0.coord(j)
            &&& poly_value(derivative(c), 0real) == from.1.coord(j)
            &&& poly_value(derivative(derivative(c)), 0real) == from.2.coord(j)
            &&& poly_value(c, 1real) == to.0.coord(j)
            &&& poly_value(derivative(c), 1real) == to.1.coord(j)
            &&& poly_value(derivative(derivative(c)), 1real) == to.2.coord(j)
        }),
{
    lemma_hermite_takes_boundary_values(boundary_values(from, to, j));
}

/// The degenerate curve. Where the control triples `from` and `to` are zero
/// in a coordinate, the coefficients of the segment between them are zero in
/// that coordinate, and so are its position, its velocity and its
/// acceleration at every `t`.
pub proof fn lemma_segment_of_zeros<P: VectorSpace>(
    from: (P, P, P),
    to: (P, P, P),
    j: int,
    t: real,
)
    requires
        from.0.coord(j) == 0real,
        from.1.coord(j) == 0real,
        from.2.coord(j) == 0real,
        to.0.coord(j) == 0real,
        to.1.coord(j) == 0real,
        to.2.coord(j) == 0real,
    ensures
        ({
            let c = hermite_coefficients(boundary_values(from, to, j));
            &&& c == zeros(6)
            &&& poly_value(c, t) == 0real
            &&& poly_value(derivative(c), t) == 0real
            &&& poly_value(derivative(derivative(c)), t) == 0real
        }),
{
    assert(boundary_values(from, to, j) =~= zeros(6));
    lemma_matrix_apply_zeros(hermite_matrix(), 6);
    lemma_poly_value_of_zeros(6, t);
    lemma_derivative_of_zeros(6);
    lemma_poly_value_of_zeros(5, t);
    lemma_derivative_of_zeros(5);
    lemma_poly_value_of_zeros(4, t);
}

/// Linearity. Where the control triples `from_k` and `to_k` are, in a
/// coordinate, `k` times the control triples `from` and `to`, the
/// coefficients of the segment between them are `k` times those of the
/// segment between `from` and `to`, and so are its position, its velocity
/// and its acceleration at every `t`.
pub proof fn lemma_segment_scales<P: VectorSpace>(
    from: (P, P, P),
    to: (P, P, P),
    from_k: (P, P, P),
    to_k: (P, P, P),
    k: real,
    j: int,
    t: real,
)
    requires
        from_k.0.coord(j) == from.0.coord(j) * k,
        from_k.1.coord(j) == from.1.coord(j) * k,
        from_k.2.coord(j) == from.2.coord(j) * k,
        to_k.0.coord(j) == to.0.coord(j) * k,
        to_k.1.coord(j) == to.1.coord(j) * k,
        to_k.2.coord(j) == to.2.coord(j) * k,
    ensures
        ({
            let c = hermite_coefficients(boundary_values(from, to, j));
            let c_k = hermite_coefficients(boundary_values(from_k, to_k, j));
            &&& c_k == scaled(c, k)
            &&& poly_value(c_k, t) == poly_value(c, t) * k
            &&& poly_value(derivative(c_k), t) == poly_value(derivative(c), t) * k
            &&& poly_value(derivative(derivative(c_k)), t) == poly_value(
                derivative(derivative(c)),
                t,
            ) * k
        }),
{
    let x = boundary_values(from, to, j);
    let c = hermite_coefficients(x);
    assert(boundary_values(from_k, to_k, j) =~= scaled(x, k));
    lemma_matrix_apply_scaled(hermite_matrix(), x, k);
    lemma_poly_value_scaled(c, k, t);
    lemma_derivative_scaled(c, k);
    lemma_poly_value_scaled(derivative(c), k, t);
    lemma_derivative_scaled(derivative(c), k);
    lemma_poly_value_scaled(derivative(derivative(c)), k, t);
}

} // verus!

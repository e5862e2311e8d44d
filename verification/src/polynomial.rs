use vstd::prelude::*;

verus! {

/// `t` raised to the power `n`.
pub open spec fn power(t: real, n: nat) -> real
    decreases n,
{
    if n == 0 {
        1real
    } else {
        power(t, (n - 1) as nat) * t
    }
}

/// The value at `t` of the polynomial with coefficients `a`, lowest degree
/// first: the sum of `a[i] * t^i` over the indices `i` of `a`.
pub open spec fn poly_value(a: Seq<real>, t: real) -> real
    decreases a.len(),
{
    if a.len() == 0 {
        0real
    } else {
        poly_value(a.drop_last(), t) + a.last() * power(t, (a.len() - 1) as nat)
    }
}

/// Horner's form of the polynomial with the coefficients of `a` from index
/// `i` on: `a[i] + t * (a[i + 1] + t * (a[i + 2] + ...))`.
pub open spec fn horner_from(a: Seq<real>, t: real, i: int) -> real
    decreases a.len() - i,
{
    if 0 <= i < a.len() {
        a[i] + horner_from(a, t, i + 1) * t
    } else {
        0real
    }
}

/// The coefficients of the derivative of the polynomial with coefficients
/// `a`: the coefficient of `t^k` is `(k + 1) * a[k + 1]`.
pub open spec fn derivative(a: Seq<real>) -> Seq<real> {
    Seq::new(
        if a.len() == 0 {
            0nat
        } else {
            (a.len() - 1) as nat
        },
        |k: int| a[k + 1] * ((k + 1) as real),
    )
}

/// The quotient by `h` of the increment that the polynomial with
/// coefficients `a` takes from `t` to `t + h`, itself a polynomial in `t`
/// and `h`: with `s` the polynomial of the coefficients after the first, it
/// is `s(t + h)` plus `t` times the quotient of `s`.
pub open spec fn difference_quotient(a: Seq<real>, t: real, h: real) -> real
    decreases a.len(),
{
    if a.len() == 0 {
        0real
    } else {
        poly_value(a.skip(1), t + h) + difference_quotient(a.skip(1), t, h) * t
    }
}

/// The sum of `x[i] * m[i]` over the indices `i` of `x`.
pub open spec fn dot(x: Seq<real>, m: Seq<real>) -> real
    decreases x.len(),
{
    if x.len() == 0 {
        0real
    } else {
        dot(x.drop_last(), m) + x.last() * m[x.len() - 1]
    }
}

/// The product of the matrix with rows `m` and the column `x`: one `dot`
/// per row.
pub open spec fn matrix_apply(m: Seq<Seq<real>>, x: Seq<real>) -> Seq<real> {
    Seq::new(m.len(), |row: int| dot(x, m[row]))
}

/// Every element of `a` multiplied by `k`.
pub open spec fn scaled(a: Seq<real>, k: real) -> Seq<real> {
    Seq::new(a.len(), |i: int| a[i] * k)
}

/// `n` zeros.
pub open spec fn zeros(n: nat) -> Seq<real> {
    Seq::new(n, |i: int| 0real)
}

proof fn lemma_mul_distributes(x: real, y: real, t: real)
    ensures
        (x + y) * t == x * t + y * t,
{
    assert((x + y) * t == x * t + y * t) by (nonlinear_arith);
}

proof fn lemma_mul_associates(x: real, y: real, t: real)
    ensures
        (x * y) * t == x * (y * t),
{
    assert((x * y) * t == x * (y * t)) by (nonlinear_arith);
}

proof fn lemma_mul_swaps(x: real, y: real, t: real)
    ensures
        (x * y) * t == (x * t) * y,
{
    assert((x * y) * t == (x * t) * y) by (nonlinear_arith);
}

/// Horner's rule: a polynomial is its constant term plus `t` times the
/// polynomial of the remaining coefficients.
pub proof fn lemma_horner_step(a: Seq<real>, t: real)
    requires
        a.len() > 0,
    ensures
        poly_value(a, t) == a[0] + poly_value(a.skip(1), t) * t,
    decreases a.len(),
{
    if a.len() == 1 {
        assert(poly_value(a.drop_last(), t) == 0real);
        assert(poly_value(a.skip(1), t) == 0real);
        assert(power(t, 0) == 1real);
    } else {
        let n = (a.len() - 1) as nat;
        lemma_horner_step(a.drop_last(), t);
        assert(a.skip(1).drop_last() =~= a.drop_last().skip(1));
        let rest = poly_value(a.drop_last().skip(1), t);
        let top = a.last() * power(t, (n - 1) as nat);
        assert(poly_value(a.skip(1), t) == rest + top);
        lemma_mul_distributes(rest, top, t);
        lemma_mul_associates(a.last(), power(t, (n - 1) as nat), t);
        assert(power(t, n) == power(t, (n - 1) as nat) * t);
    }
}

/// Horner's form from index `i` on has the value of the polynomial with the
/// coefficients from `i` on.
pub proof fn lemma_horner_from(a: Seq<real>, t: real, i: int)
    requires
        0 <= i <= a.len(),
    ensures
        horner_from(a, t, i) == poly_value(a.skip(i), t),
    decreases a.len() - i,
{
    if i < a.len() {
        lemma_horner_from(a, t, i + 1);
        lemma_horner_step(a.skip(i), t);
        assert(a.skip(i).skip(1) =~= a.skip(i + 1));
    }
}

/// Horner's form of a polynomial has the value of the polynomial: the sum of
/// its coefficients, each times its power of `t`.
pub proof fn lemma_horner_is_poly_value(a: Seq<real>, t: real)
    ensures
        horner_from(a, t, 0) == poly_value(a, t),
{
    lemma_horner_from(a, t, 0);
    assert(a.skip(0) =~= a);
}

/// The polynomial whose coefficients are all zero has the value zero
/// everywhere.
pub proof fn lemma_poly_value_of_zeros(n: nat, t: real)
    ensures
        poly_value(zeros(n), t) == 0real,
    decreases n,
{
    if n > 0 {
        lemma_poly_value_of_zeros((n - 1) as nat, t);
        assert(zeros(n).drop_last() =~= zeros((n - 1) as nat));
    }
}

/// The derivative of the zero polynomial is the zero polynomial.
pub proof fn lemma_derivative_of_zeros(n: nat)
    ensures
        derivative(zeros(n)) == zeros(derivative(zeros(n)).len()),
{
    assert(derivative(zeros(n)) =~= zeros(derivative(zeros(n)).len()));
}

/// A `dot` with zeros is zero.
pub proof fn lemma_dot_of_zeros(n: nat, m: Seq<real>)
    ensures
        dot(zeros(n), m) == 0real,
    decreases n,
{
    if n > 0 {
        lemma_dot_of_zeros((n - 1) as nat, m);
        assert(zeros(n).drop_last() =~= zeros((n - 1) as nat));
    }
}

/// A matrix applied to zeros gives zeros.
pub proof fn lemma_matrix_apply_zeros(m: Seq<Seq<real>>, n: nat)
    ensures
        matrix_apply(m, zeros(n)) == zeros(m.len()),
{
    assert forall|row: int| 0 <= row < m.len() implies dot(zeros(n), #[trigger] m[row])
        == 0real by {
        lemma_dot_of_zeros(n, m[row]);
    }
    assert(matrix_apply(m, zeros(n)) =~= zeros(m.len()));
}

/// Evaluation is linear: with every coefficient multiplied by `k`, the
/// value is multiplied by `k`.
pub proof fn lemma_poly_value_scaled(a: Seq<real>, k: real, t: real)
    ensures
        poly_value(scaled(a, k), t) == poly_value(a, t) * k,
    decreases a.len(),
{
    if a.len() > 0 {
        let top = power(t, (a.len() - 1) as nat);
        lemma_poly_value_scaled(a.drop_last(), k, t);
        assert(scaled(a, k).drop_last() =~= scaled(a.drop_last(), k));
        lemma_mul_swaps(a.last(), k, top);
        lemma_mul_distributes(poly_value(a.drop_last(), t), a.last() * top, k);
    }
}

/// Differentiation is linear: the derivative of the polynomial with every
/// coefficient multiplied by `k` is the derivative with every coefficient
/// multiplied by `k`.
pub proof fn lemma_derivative_scaled(a: Seq<real>, k: real)
    ensures
        derivative(scaled(a, k)) == scaled(derivative(a), k),
{
    assert forall|i: int| 0 <= i < derivative(a).len() implies #[trigger] derivative(
        scaled(a, k),
    )[i] == scaled(derivative(a), k)[i] by {
        lemma_mul_swaps(a[i + 1], k, (i + 1) as real);
    }
    assert(derivative(scaled(a, k)) =~= scaled(derivative(a), k));
}

/// A `dot` is linear in its first argument.
pub proof fn lemma_dot_scaled(x: Seq<real>, m: Seq<real>, k: real)
    ensures
        dot(scaled(x, k), m) == dot(x, m) * k,
    decreases x.len(),
{
    if x.len() > 0 {
        let w = m[x.len() - 1];
        lemma_dot_scaled(x.drop_last(), m, k);
        assert(scaled(x, k).drop_last() =~= scaled(x.drop_last(), k));
        lemma_mul_swaps(x.last(), k, w);
        lemma_mul_distributes(dot(x.drop_last(), m), x.last() * w, k);
    }
}

/// A matrix applied to a column multiplied by `k` gives the product
/// multiplied by `k`.
pub proof fn lemma_matrix_apply_scaled(m: Seq<Seq<real>>, x: Seq<real>, k: real)
    ensures
        matrix_apply(m, scaled(x, k)) == scaled(matrix_apply(m, x), k),
{
    assert forall|row: int| 0 <= row < m.len() implies dot(scaled(x, k), #[trigger] m[row])
        == dot(x, m[row]) * k by {
        lemma_dot_scaled(x, m[row], k);
    }
    assert(matrix_apply(m, scaled(x, k)) =~= scaled(matrix_apply(m, x), k));
}

/// The increment of a polynomial from `t` to `t + h` is `h` times its
/// difference quotient.
pub proof fn lemma_increment(a: Seq<real>, t: real, h: real)
    ensures
        poly_value(a, t + h) - poly_value(a, t) == difference_quotient(a, t, h) * h,
    decreases a.len(),
{
    if a.len() > 0 {
        let s = a.skip(1);
        let ahead = poly_value(s, t + h);
        let here = poly_value(s, t);
        let q = difference_quotient(s, t, h);
        lemma_horner_step(a, t + h);
        lemma_horner_step(a, t);
        lemma_increment(s, t, h);
        assert(ahead * (t + h) - here * t == (ahead + q * t) * h) by (nonlinear_arith)
            requires
                ahead - here == q * h,
        ;
    }
}

/// The product rule for a polynomial written as its constant term plus `t`
/// times the polynomial `s` of the remaining coefficients: its derivative is
/// `s` plus `t` times the derivative of `s`.
pub proof fn lemma_derivative_step(a: Seq<real>, t: real)
    requires
        a.len() > 0,
    ensures
        poly_value(derivative(a), t) == poly_value(a.skip(1), t) + poly_value(
            derivative(a.skip(1)),
            t,
        ) * t,
    decreases a.len(),
{
    let n = a.len();
    let d = derivative(a);
    let s = a.skip(1);
    let ds = derivative(s);
    if n == 1 {
        assert(poly_value(d, t) == 0real);
        assert(poly_value(s, t) == 0real);
        assert(poly_value(ds, t) == 0real);
    } else {
        let top = a[n - 1];
        let high = power(t, (n - 2) as nat);
        lemma_derivative_step(a.drop_last(), t);
        assert(d.drop_last() =~= derivative(a.drop_last()));
        assert(s.drop_last() =~= a.drop_last().skip(1));
        assert(poly_value(d, t) == poly_value(d.drop_last(), t) + (top * ((n - 1) as real)) * high);
        assert(poly_value(s, t) == poly_value(s.drop_last(), t) + top * high);
        if n == 2 {
            assert(poly_value(ds, t) == 0real);
            assert(poly_value(derivative(s.drop_last()), t) == 0real);
            assert((top * ((n - 1) as real)) * high == top * high) by (nonlinear_arith)
                requires
                    n == 2,
            ;
        } else {
            let low = power(t, (n - 3) as nat);
            let rest = poly_value(ds.drop_last(), t);
            assert(ds.drop_last() =~= derivative(s.drop_last()));
            assert(poly_value(ds, t) == rest + (top * ((n - 2) as real)) * low);
            assert(high == low * t);
            assert((rest + (top * ((n - 2) as real)) * low) * t + top * high == rest * t + (top * ((
                n - 1) as real)) * high) by (nonlinear_arith)
                requires
                    high == low * t,
                    n >= 3,
            ;
        }
    }
}

/// The derivative is the limit of the difference quotient. The quotient is
/// a polynomial in `h`, so what it tends to as `h` tends to 0 is its value
/// at `h = 0`: the value of the derivative.
pub proof fn lemma_derivative_is_limit(a: Seq<real>, t: real)
    ensures
        difference_quotient(a, t, 0real) == poly_value(derivative(a), t),
    decreases a.len(),
{
    if a.len() == 0 {
        assert(poly_value(derivative(a), t) == 0real);
    } else {
        lemma_derivative_is_limit(a.skip(1), t);
        lemma_derivative_step(a, t);
    }
}

} // verus!

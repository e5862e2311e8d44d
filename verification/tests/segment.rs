use polynomial_splines::cubic::CubicSegment;
use polynomial_splines::{PolynomialSegment, VectorSpace};

/// The real line in double precision.
#[derive(Copy, Clone, Debug, PartialEq)]
struct Line(f64);

impl VectorSpace for Line {
    type Scalar = f64;

    fn scalar_from_ratio(num: i64, den: u64) -> f64 {
        num as f64 / den as f64
    }

    fn scalar_from_nat(n: u128) -> f64 {
        n as f64
    }

    fn zero() -> Self {
        Line(0.0)
    }

    fn add(self, rhs: Self) -> Self {
        Line(self.0 + rhs.0)
    }

    fn scale(self, k: f64) -> Self {
        Line(self.0 * k)
    }
}

/// The plane in single precision.
#[derive(Copy, Clone, Debug, PartialEq)]
struct Plane {
    x: f32,
    y: f32,
}

impl VectorSpace for Plane {
    type Scalar = f32;

    fn scalar_from_ratio(num: i64, den: u64) -> f32 {
        num as f32 / den as f32
    }

    fn scalar_from_nat(n: u128) -> f32 {
        n as f32
    }

    fn zero() -> Self {
        Plane { x: 0.0, y: 0.0 }
    }

    fn add(self, rhs: Self) -> Self {
        Plane { x: self.x + rhs.x, y: self.y + rhs.y }
    }

    fn scale(self, k: f32) -> Self {
        Plane { x: self.x * k, y: self.y * k }
    }
}

fn line_segment<const N: usize>(c: [f64; N]) -> PolynomialSegment<N, Line> {
    PolynomialSegment { coefficients: c.map(Line) }
}

/// The sum of `c[i] * t^i`, term by term.
fn power_sum(c: &[f64], t: f64) -> f64 {
    let mut sum = 0.0;
    for (i, a) in c.iter().enumerate() {
        sum += a * t.powi(i as i32);
    }
    sum
}

fn close(a: f64, b: f64, tolerance: f64) -> bool {
    (a - b).abs() <= tolerance * (1.0 + a.abs().max(b.abs()))
}

#[test]
fn position_of_a_cubic_at_two() {
    let s = line_segment([1.0, 2.0, 3.0, 4.0]);
    assert_eq!(s.position(2.0), Line(49.0));
}

#[test]
fn velocity_of_a_cubic_at_two() {
    let s = line_segment([1.0, 2.0, 3.0, 4.0]);
    assert_eq!(s.velocity(2.0), Line(62.0));
}

#[test]
fn acceleration_of_a_cubic_at_two() {
    let s = line_segment([1.0, 2.0, 3.0, 4.0]);
    assert_eq!(s.acceleration(2.0), Line(54.0));
}

#[test]
fn acceleration_of_a_quintic_uses_every_factor() {
    // 2 * 1, 3 * 2, 4 * 3 and 5 * 4 before the coefficients of degree 2 to 5.
    let s = line_segment([0.0, 0.0, 1.0, 1.0, 1.0, 1.0]);
    assert_eq!(s.acceleration(1.0), Line(2.0 + 6.0 + 12.0 + 20.0));
    assert_eq!(s.acceleration(2.0), Line(2.0 + 6.0 * 2.0 + 12.0 * 4.0 + 20.0 * 8.0));
    assert_eq!(s.velocity(2.0), Line(2.0 * 2.0 + 3.0 * 4.0 + 4.0 * 8.0 + 5.0 * 16.0));
}

#[test]
fn position_equals_the_power_sum() {
    let c = [0.75, -1.5, 2.25, 0.5, -3.0, 1.125];
    let s = line_segment(c);
    for t in [-2.0, -0.5, 0.0, 0.1, 0.25, 0.5, 0.9, 1.0, 1.5, 3.0] {
        let Line(p) = s.position(t);
        assert!(close(p, power_sum(&c, t), 1e-12), "t = {t}: {p}");
    }
}

#[test]
fn velocity_equals_the_derivative_sum() {
    let c = [0.75, -1.5, 2.25, 0.5, -3.0, 1.125];
    let d = [-1.5, 2.0 * 2.25, 3.0 * 0.5, 4.0 * -3.0, 5.0 * 1.125];
    let dd = [2.0 * 2.25, 6.0 * 0.5, 12.0 * -3.0, 20.0 * 1.125];
    let s = line_segment(c);
    for t in [-2.0, 0.0, 0.3, 1.0, 2.5] {
        let Line(v) = s.velocity(t);
        let Line(a) = s.acceleration(t);
        assert!(close(v, power_sum(&d, t), 1e-12), "t = {t}: {v}");
        assert!(close(a, power_sum(&dd, t), 1e-12), "t = {t}: {a}");
    }
}

#[test]
fn velocity_matches_the_finite_difference_of_position() {
    let s = line_segment([0.5, -1.0, 2.0, 0.25, -0.75, 1.5]);
    let h = 1e-5;
    for t in [-1.0, 0.0, 0.2, 0.5, 0.8, 1.0, 1.7] {
        let Line(ahead) = s.position(t + h);
        let Line(behind) = s.position(t - h);
        let Line(v) = s.velocity(t);
        assert!(close(v, (ahead - behind) / (2.0 * h), 1e-7), "t = {t}: {v}");
    }
}

#[test]
fn acceleration_matches_the_finite_difference_of_velocity() {
    let s = line_segment([0.5, -1.0, 2.0, 0.25, -0.75, 1.5]);
    let h = 1e-5;
    for t in [-1.0, 0.0, 0.2, 0.5, 0.8, 1.0, 1.7] {
        let Line(ahead) = s.velocity(t + h);
        let Line(behind) = s.velocity(t - h);
        let Line(a) = s.acceleration(t);
        assert!(close(a, (ahead - behind) / (2.0 * h), 1e-7), "t = {t}: {a}");
    }
}

#[test]
fn acceleration_matches_the_second_difference_of_position() {
    let s = line_segment([0.5, -1.0, 2.0, 0.25, -0.75, 1.5]);
    let h = 1e-3;
    for t in [0.0, 0.2, 0.5, 0.8, 1.0] {
        let Line(ahead) = s.position(t + h);
        let Line(here) = s.position(t);
        let Line(behind) = s.position(t - h);
        let Line(a) = s.acceleration(t);
        assert!(close(a, (ahead - 2.0 * here + behind) / (h * h), 1e-4), "t = {t}: {a}");
    }
}

#[test]
fn a_constant_segment_stays_put() {
    let s = line_segment([7.5]);
    for t in [-3.0, 0.0, 0.5, 1.0, 10.0] {
        assert_eq!(s.position(t), Line(7.5));
        assert_eq!(s.velocity(t), Line(0.0));
        assert_eq!(s.acceleration(t), Line(0.0));
    }
}

#[test]
fn a_linear_segment_has_constant_velocity() {
    let s = line_segment([1.0, -2.0]);
    for t in [-3.0, 0.0, 0.5, 1.0, 10.0] {
        assert_eq!(s.position(t), Line(1.0 - 2.0 * t));
        assert_eq!(s.velocity(t), Line(-2.0));
        assert_eq!(s.acceleration(t), Line(0.0));
    }
}

#[test]
fn a_quadratic_segment_has_constant_acceleration() {
    let s = line_segment([1.0, -2.0, 3.0]);
    assert_eq!(s.position(2.0), Line(9.0));
    assert_eq!(s.velocity(2.0), Line(10.0));
    for t in [-3.0, 0.0, 0.5, 1.0, 10.0] {
        assert_eq!(s.acceleration(t), Line(6.0));
    }
}

#[test]
fn a_segment_without_coefficients_is_zero() {
    let s: PolynomialSegment<0, Line> = PolynomialSegment { coefficients: [] };
    assert_eq!(s.position(0.5), Line(0.0));
    assert_eq!(s.velocity(0.5), Line(0.0));
    assert_eq!(s.acceleration(0.5), Line(0.0));
}

#[test]
fn evaluation_outside_the_unit_interval_extrapolates() {
    let s = line_segment([1.0, 1.0, 1.0, 1.0]);
    assert_eq!(s.position(-1.0), Line(0.0));
    assert_eq!(s.position(3.0), Line(40.0));
    assert_eq!(s.velocity(-1.0), Line(2.0));
    assert_eq!(s.acceleration(-1.0), Line(-4.0));
}

#[test]
fn every_coordinate_is_evaluated_by_itself() {
    let s: CubicSegment<Plane> = PolynomialSegment {
        coefficients: [
            Plane { x: 1.0, y: -1.0 },
            Plane { x: 2.0, y: 0.0 },
            Plane { x: 3.0, y: 0.5 },
            Plane { x: 4.0, y: 0.0 },
        ],
    };
    assert_eq!(s.position(2.0), Plane { x: 49.0, y: 1.0 });
    assert_eq!(s.velocity(2.0), Plane { x: 62.0, y: 2.0 });
    assert_eq!(s.acceleration(2.0), Plane { x: 54.0, y: 1.0 });
    assert_eq!(s.position(0.0), Plane { x: 1.0, y: -1.0 });
}

#[test]
fn a_segment_is_a_plain_value() {
    let s = line_segment([1.0, 2.0, 3.0]);
    let copy = s;
    assert_eq!(s, copy);
    assert_eq!(s.clone().coefficients, [Line(1.0), Line(2.0), Line(3.0)]);
    assert_ne!(s, line_segment([1.0, 2.0, 4.0]));
    assert_eq!(format!("{:?}", line_segment([1.0])), "PolynomialSegment { coefficients: [Line(1.0)] }");
}

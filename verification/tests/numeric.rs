//! Unit tests for the fixed-point scalar and vector operations.
use nous::num::{Scalar, MAX_RAW};
use nous::vector::Vector;

fn s(i: i64) -> Scalar {
    Scalar::from_int(i)
}

fn sm(micros: i128) -> Scalar {
    Scalar::from_micros(micros)
}

fn v(x: i64, y: i64) -> Vector {
    Vector::new(Scalar::from_int(x), Scalar::from_int(y))
}

#[test]
fn from_int_and_micros_roundtrip() {
    assert_eq!(s(3).micros(), 3_000_000);
    assert_eq!(s(-2).micros(), -2_000_000);
    assert_eq!(sm(500_000).micros(), 500_000);
    assert_eq!(s(0).micros(), 0);
}

#[test]
fn addition_saturates_at_the_boundary() {
    assert_eq!(s(2).add(s(3)).micros(), 5_000_000);
    assert_eq!(Scalar::from_micros(i128::MAX).micros(), MAX_RAW);
    let top = Scalar::from_micros(MAX_RAW);
    assert_eq!(top.add(top).micros(), MAX_RAW);
    assert_eq!(top.neg().add(top.neg()).micros(), -MAX_RAW);
}

#[test]
fn multiplication_truncates_toward_zero() {
    assert_eq!(sm(1_500_000).mul(sm(1_500_000)).micros(), 2_250_000);
    // 1 micro-unit times a half truncates to zero.
    assert_eq!(sm(1).mul(sm(500_000)).micros(), 0);
    assert_eq!(sm(-1).mul(sm(500_000)).micros(), 0);
    assert_eq!(s(-3).mul(s(2)).micros(), -6_000_000);
}

#[test]
fn multiplication_up_rounds_toward_positive_infinity() {
    assert_eq!(sm(1).mul_up(sm(500_000)).micros(), 1);
    assert_eq!(sm(-1).mul_up(sm(500_000)).micros(), 0);
    assert_eq!(s(2).mul_up(s(2)).micros(), 4_000_000);
}

#[test]
fn division_rounds_toward_negative_infinity() {
    assert_eq!(s(1).div(s(3)).micros(), 333_333);
    assert_eq!(s(-1).div(s(3)).micros(), -333_334);
    assert_eq!(s(6).div(s(-2)).micros(), -3_000_000);
    assert_eq!(s(-6).div(s(-2)).micros(), 3_000_000);
}

#[test]
fn square_root_rounds_down() {
    assert_eq!(s(4).sqrt().micros(), 2_000_000);
    assert_eq!(s(2).sqrt().micros(), 1_414_213);
    assert_eq!(s(0).sqrt().micros(), 0);
}

#[test]
fn min_is_strict_less_with_ties_to_the_second() {
    assert_eq!(s(3).min(s(5)).micros(), 3_000_000);
    assert_eq!(s(5).min(s(3)).micros(), 3_000_000);
    assert_eq!(s(4).min(s(4)).micros(), 4_000_000);
}

#[test]
fn comparisons_follow_the_raw_values() {
    assert!(s(-1).lt(s(1)));
    assert!(!s(1).lt(s(1)));
    assert!(s(1).le(s(1)));
    assert!(s(-1).is_negative());
    assert!(!s(0).is_negative());
    assert!(s(0).is_zero());
}

#[test]
fn vector_field_operations_are_componentwise() {
    assert_eq!(v(1, 2).add(v(3, 4)), v(4, 6));
    assert_eq!(v(1, 2).sub(v(3, 4)), v(-2, -2));
    assert_eq!(v(1, 2).mul(s(3)), v(3, 6));
    assert_eq!(v(4, 6).div(s(2)), v(2, 3));
    assert_eq!(v(1, 2).dot(v(3, 4)).micros(), 11_000_000);
}

#[test]
fn length_is_the_rounded_down_euclidean_norm() {
    assert_eq!(v(3, 4).length_sq().micros(), 25_000_000);
    assert_eq!(v(3, 4).length().micros(), 5_000_000);
    assert_eq!(v(1, 1).length().micros(), 1_414_213);
}

#[test]
fn normalizing_a_zero_vector_returns_it_unchanged() {
    assert_eq!(v(0, 0).normalized(), v(0, 0));
}

#[test]
fn normalized_divides_by_the_length() {
    let n = v(3, 4).normalized();
    assert_eq!(n.x.micros(), 600_000);
    assert_eq!(n.y.micros(), 800_000);
}

#[test]
fn reflection_about_a_unit_normal() {
    // reflect((1, -1), (0, 1)) = (1, -1) - (0, 1) * 2 * -1 = (1, 1)
    assert_eq!(v(1, -1).reflect(v(0, 1)), v(1, 1));
}

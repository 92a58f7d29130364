//! Exact rational scalar arithmetic.

use jive::rat::{Scalar, MAXQ};

fn r(n: i64, d: i64) -> Scalar {
    Scalar::ratio(n, d)
}

#[test]
fn ratio_reduces_to_lowest_terms() {
    let a = r(2, 4);
    let b = r(1, 2);
    assert!(a.eq_rat(&b));
    assert_eq!(a.num(), 1);
    assert_eq!(a.den(), 2);
    assert_eq!(a, b);
}

#[test]
fn ratio_normalizes_signs() {
    let a = r(-3, -6);
    assert_eq!(a.num(), 1);
    assert_eq!(a.den(), 2);
    let b = r(3, -6);
    assert_eq!(b.num(), -1);
    assert_eq!(b.den(), 2);
}

#[test]
fn addition_is_exact() {
    let a = r(1, 3);
    let b = r(1, 6);
    let s = a.checked_add(&b).unwrap();
    assert!(s.eq_rat(&r(1, 2)));
    assert_eq!(s.num(), 1);
    assert_eq!(s.den(), 2);
}

#[test]
fn subtraction_and_negation() {
    let a = r(3, 4);
    let b = r(1, 4);
    let d = a.checked_sub(&b).unwrap();
    assert!(d.eq_rat(&r(1, 2)));
    let n = a.neg();
    assert_eq!(n.num(), -3);
    assert_eq!(n.den(), 4);
}

#[test]
fn multiplication_reduces() {
    let a = r(2, 3);
    let b = r(3, 4);
    let p = a.checked_mul(&b).unwrap();
    assert_eq!(p.num(), 1);
    assert_eq!(p.den(), 2);
}

#[test]
fn division_by_zero_is_none() {
    let a = r(1, 2);
    let z = Scalar::zero();
    assert!(a.checked_div(&z).is_none());
}

#[test]
fn division_is_exact() {
    let a = r(1, 2);
    let b = r(3, 5);
    let q = a.checked_div(&b).unwrap();
    assert!(q.eq_rat(&r(5, 6)));
    let c = r(1, 2);
    let d = r(-3, 5);
    let q2 = c.checked_div(&d).unwrap();
    assert!(q2.eq_rat(&r(-5, 6)));
}

#[test]
fn out_of_range_results_are_reported() {
    let big = Scalar::from_int(MAXQ);
    assert!(big.checked_mul(&big).is_none());
    assert!(big.checked_add(&Scalar::one()).is_none());
}

#[test]
fn comparisons_follow_rational_order() {
    let a = r(1, 3);
    let b = r(1, 2);
    assert!(a.lt(&b));
    assert!(a.le(&b));
    assert!(!b.le(&a));
    assert!(!a.eq_rat(&b));
    let c = r(-1, 2);
    assert!(c.lt(&a));
    assert!(Scalar::zero().is_zero());
    assert!(!a.is_zero());
}

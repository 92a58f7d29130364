//! The vector/matrix kernel: dot, cross, rotations and the projective
//! transform with its guarded divide.

use jive::error::JiveError;
use jive::mat::{apply3x3, apply4x4, Mat3x3, Mat4x4};
use jive::rat::Scalar;
use jive::vec3::{vec3f_cross, vec3f_dot, Vec3f};

fn r(n: i64, d: i64) -> Scalar {
    Scalar::ratio(n, d)
}

fn i(n: i64) -> Scalar {
    Scalar::from_int(n)
}

fn vec(a: i64, b: i64, c: i64) -> Vec3f {
    Vec3f::from(i(a), i(b), i(c))
}

#[test]
fn dot_product_is_standard() {
    let a = vec(1, 2, 3);
    let b = vec(4, 5, 6);
    let d = vec3f_dot(&a, &b).unwrap();
    assert!(d.eq_rat(&i(32)));
}

#[test]
fn cross_product_is_perpendicular() {
    let a = vec(1, 0, 0);
    let b = vec(0, 1, 0);
    let c = vec3f_cross(&a, &b).unwrap();
    assert!(c.x().eq_rat(&i(0)));
    assert!(c.y().eq_rat(&i(0)));
    assert!(c.z().eq_rat(&i(1)));
    // Degenerate (parallel) inputs give the zero vector, not an error.
    let p = vec3f_cross(&a, &a).unwrap();
    assert!(p.x().is_zero() && p.y().is_zero() && p.z().is_zero());
}

#[test]
fn magnitude_sq_and_normalize() {
    let v = vec(3, 4, 0);
    let m = v.magnitude_sq().unwrap();
    assert!(m.eq_rat(&i(25)));
    let n = v.normalize(&r(1, 5)).unwrap();
    assert!(n.x().eq_rat(&r(3, 5)));
    assert!(n.y().eq_rat(&r(4, 5)));
    assert!(n.magnitude_sq().unwrap().eq_rat(&i(1)));
}

#[test]
fn normalize_of_zero_vector_is_degenerate() {
    let v = vec(0, 0, 0);
    assert_eq!(v.normalize(&i(1)), Err(JiveError::DegenerateVector));
}

#[test]
fn identity_leaves_vectors_unchanged() {
    let m = Mat3x3::identity();
    let v = vec(7, -2, 5);
    let w = apply3x3(&v, &m).unwrap();
    assert!(w.x().eq_rat(&i(7)));
    assert!(w.y().eq_rat(&i(-2)));
    assert!(w.z().eq_rat(&i(5)));
}

#[test]
fn roll_rotates_about_x() {
    // cos = 3/5, sin = 4/5: an exact point of the unit circle.
    let m = Mat3x3::roll(&r(3, 5), &r(4, 5));
    let v = vec(1, 5, 10);
    let w = apply3x3(&v, &m).unwrap();
    assert!(w.x().eq_rat(&i(1)));
    // y' = (3/5)*5 - (4/5)*10 = -5, z' = (4/5)*5 + (3/5)*10 = 10
    assert!(w.y().eq_rat(&i(-5)));
    assert!(w.z().eq_rat(&i(10)));
}

#[test]
fn roll_times_its_transpose_is_identity() {
    let c = r(3, 5);
    let s = r(4, 5);
    let m = Mat3x3::roll(&c, &s);
    let mt = Mat3x3::roll(&c, &s.neg());
    let p = m.compose(&mt).unwrap();
    for k in 0..9 {
        let expected: i64 = if k == 0 || k == 4 || k == 8 { 1 } else { 0 };
        assert!(p.e[k].eq_rat(&i(expected)));
    }
}

#[test]
fn rolls_compose_additively() {
    let c = r(3, 5);
    let s = r(4, 5);
    let m = Mat3x3::roll(&c, &s);
    let twice = m.compose(&m).unwrap();
    // cos(2t) = c*c - s*s = -7/25, sin(2t) = 2*c*s = 24/25.
    let direct = Mat3x3::roll(&r(-7, 25), &r(24, 25));
    let v = vec(1, 2, 3);
    let via_compose = apply3x3(&v, &twice).unwrap();
    let via_sum = apply3x3(&v, &direct).unwrap();
    for k in 0..3 {
        assert!(via_compose.e[k].eq_rat(&via_sum.e[k]));
    }
}

#[test]
fn perspective_divide_is_skipped_for_zero_w() {
    // Layout: w reads column 3, so e[11] = 1 makes w = z.
    let z = Scalar::zero();
    let o = Scalar::one();
    let m = Mat4x4 {
        e: [o, z, z, z, z, o, z, z, z, z, o, o, z, z, i(5), z],
    };
    // z = 0 gives w = 0: the pre-divide coordinates are kept.
    let p = apply4x4(&vec(2, 3, 0), &m).unwrap();
    assert!(p.x().eq_rat(&i(2)));
    assert!(p.y().eq_rat(&i(3)));
    assert!(p.z().eq_rat(&i(5)));
    // z = 1 gives w = 1: the divide happens.
    let q = apply4x4(&vec(2, 3, 1), &m).unwrap();
    assert!(q.x().eq_rat(&i(2)));
    assert!(q.y().eq_rat(&i(3)));
    assert!(q.z().eq_rat(&i(6)));
    // A nontrivial w scales all components.
    let m2 = Mat4x4 {
        e: [o, z, z, z, z, o, z, z, z, z, o, i(2), z, z, z, z],
    };
    let s = apply4x4(&vec(2, 3, 1), &m2).unwrap();
    assert!(s.x().eq_rat(&r(2, 2)));
    assert!(s.y().eq_rat(&r(3, 2)));
    assert!(s.z().eq_rat(&r(1, 2)));
}

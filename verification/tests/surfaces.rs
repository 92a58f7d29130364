//! The parametric surface evaluator: grids, per-family equations,
//! degenerate coefficient patterns, and purity.

use jive::error::JiveError;
use jive::rat::Scalar;
use jive::surface::{JiveSurface, SurfaceKind, TrigSample};

fn r(n: i64, d: i64) -> Scalar {
    Scalar::ratio(n, d)
}

fn i(n: i64) -> Scalar {
    Scalar::from_int(n)
}

/// A scalar sampling the value `x` with denominator 1024.
fn sample(x: f64) -> Scalar {
    Scalar::ratio((x * 1024.0).round() as i64, 1024)
}

/// Transcendental samples for a surface whose v and u parameters are
/// angles in degrees, with `root` sampling sqrt(|coef5|).
fn angle_samples(v: f64, u: f64, root: f64) -> TrigSample {
    let vr = v.to_radians();
    let ur = u.to_radians();
    TrigSample {
        cos_v: sample(vr.cos()),
        sin_v: sample(vr.sin()),
        cos_u: sample(ur.cos()),
        sin_u: sample(ur.sin()),
        root: sample(root),
    }
}

fn zero_samples() -> TrigSample {
    TrigSample {
        cos_v: Scalar::zero(),
        sin_v: Scalar::zero(),
        cos_u: Scalar::zero(),
        sin_u: Scalar::zero(),
        root: Scalar::zero(),
    }
}

fn coefs(c: [i64; 6]) -> [Scalar; 6] {
    [i(c[0]), i(c[1]), i(c[2]), i(c[3]), i(c[4]), i(c[5])]
}

#[test]
fn tags_decode_to_the_six_families() {
    assert_eq!(SurfaceKind::from_tag(1), Ok(SurfaceKind::Sphere));
    assert_eq!(SurfaceKind::from_tag(2), Ok(SurfaceKind::Ellipsoid));
    assert_eq!(SurfaceKind::from_tag(3), Ok(SurfaceKind::Hyperboloid));
    assert_eq!(SurfaceKind::from_tag(4), Ok(SurfaceKind::Paraboloid));
    assert_eq!(SurfaceKind::from_tag(5), Ok(SurfaceKind::Plane));
    assert_eq!(SurfaceKind::from_tag(6), Ok(SurfaceKind::Cone));
    assert_eq!(SurfaceKind::from_tag(0), Err(JiveError::InvalidSurfaceType));
    assert_eq!(SurfaceKind::from_tag(7), Err(JiveError::InvalidSurfaceType));
}

#[test]
fn grids_produce_the_documented_point_counts() {
    let cases: [(SurfaceKind, usize); 6] = [
        (SurfaceKind::Sphere, 540),
        (SurfaceKind::Ellipsoid, 1620),
        (SurfaceKind::Hyperboloid, 900),
        (SurfaceKind::Paraboloid, 900),
        (SurfaceKind::Plane, 100),
        (SurfaceKind::Cone, 3600),
    ];
    for (kind, expected) in cases {
        let s = JiveSurface::new(kind, coefs([1, 1, 1, 1, 1, 1]));
        let ps = s.sample_params();
        assert_eq!(ps.len(), expected);
        let count = (((s.vmax - s.vmin) / s.vstep) * ((s.umax - s.umin) / s.ustep)) as usize;
        assert_eq!(ps.len(), count);
    }
}

#[test]
fn sphere_grid_is_row_major() {
    let s = JiveSurface::new(SurfaceKind::Sphere, coefs([0, 0, 0, 0, 0, 4]));
    let ps = s.sample_params();
    assert_eq!(ps[0], (0, 0));
    assert_eq!(ps[1], (0, 4));
    assert_eq!(ps[89], (0, 356));
    assert_eq!(ps[90], (30, 0));
    assert_eq!(ps[539], (150, 356));
}

#[test]
fn plane_with_only_a_nonzero_fixes_y() {
    // a*x = d with a = 1, d = 5: the evaluator passes u and v through and
    // pins the solved coordinate at d, all scaled by 1/20.
    let c = coefs([1, 0, 0, 5, 0, 0]);
    let p = JiveSurface::solve(SurfaceKind::Plane, 3, 7, &c, &zero_samples()).unwrap();
    assert!(p.x().eq_rat(&r(7, 20)));
    assert!(p.y().eq_rat(&r(5, 20)));
    assert!(p.z().eq_rat(&r(3, 20)));
}

#[test]
fn plane_with_only_b_nonzero_fixes_x() {
    let c = coefs([0, 1, 0, 5, 0, 0]);
    let p = JiveSurface::solve(SurfaceKind::Plane, 3, 7, &c, &zero_samples()).unwrap();
    assert!(p.x().eq_rat(&r(1, 4)));
    assert!(p.y().eq_rat(&r(3, 20)));
    assert!(p.z().eq_rat(&r(7, 20)));
}

#[test]
fn plane_with_only_c_nonzero_fixes_z() {
    let c = coefs([0, 0, 2, 6, 0, 0]);
    let p = JiveSurface::solve(SurfaceKind::Plane, 3, 7, &c, &zero_samples()).unwrap();
    assert!(p.x().eq_rat(&r(7, 20)));
    assert!(p.y().eq_rat(&r(3, 20)));
    assert!(p.z().eq_rat(&r(6, 20)));
}

#[test]
fn plane_general_case_solves_for_z() {
    let c = coefs([1, 1, 1, 6, 0, 0]);
    let p = JiveSurface::solve(SurfaceKind::Plane, 2, 3, &c, &zero_samples()).unwrap();
    assert!(p.x().eq_rat(&r(3, 20)));
    assert!(p.y().eq_rat(&r(2, 20)));
    // z = (6 - 1*3 - 1*2) / 1, scaled: 1/20.
    assert!(p.z().eq_rat(&r(1, 20)));
}

#[test]
fn plane_with_all_zero_coefficients_is_degenerate() {
    let c = coefs([0, 0, 0, 5, 0, 0]);
    let e = JiveSurface::solve(SurfaceKind::Plane, 1, 1, &c, &zero_samples());
    assert_eq!(e.unwrap_err(), JiveError::DegeneratePlane);
}

#[test]
fn plane_with_zero_c_and_both_a_b_nonzero_is_unsolvable() {
    let c = coefs([1, 2, 0, 5, 0, 0]);
    let e = JiveSurface::solve(SurfaceKind::Plane, 1, 1, &c, &zero_samples());
    assert_eq!(e.unwrap_err(), JiveError::UnsolvablePlane);
}

#[test]
fn cone_point_follows_the_closed_form() {
    // steepness 2, height 40: s = 40 / (200*2) = 1/10; at theta = 0,
    // v = 5: x = s*v = 1/2, y = 0, z = s*2*5 = 1.
    let c = coefs([2, 40, 0, 0, 0, 0]);
    let t = angle_samples(0.0, 0.0, 0.0);
    let p = JiveSurface::solve(SurfaceKind::Cone, 5, 0, &c, &t).unwrap();
    assert!(p.x().eq_rat(&r(1, 2)));
    assert!(p.y().is_zero());
    assert!(p.z().eq_rat(&i(1)));
}

#[test]
fn cone_with_zero_steepness_is_degenerate() {
    let c = coefs([0, 40, 0, 0, 0, 0]);
    let t = angle_samples(0.0, 0.0, 0.0);
    let e = JiveSurface::solve(SurfaceKind::Cone, 5, 0, &c, &t);
    assert_eq!(e.unwrap_err(), JiveError::DegenerateCone);
}

#[test]
fn sphere_point_at_the_equator() {
    // coef5 = 4: radius parameter sqrt(4)/2 * 1/20 = 1/20. At v = 90 and
    // u = 0 the point sits on the positive x-axis.
    let c = coefs([0, 0, 0, 0, 0, 4]);
    let t = angle_samples(90.0, 0.0, 2.0);
    let p = JiveSurface::solve(SurfaceKind::Sphere, 90, 0, &c, &t).unwrap();
    assert!(p.x().eq_rat(&r(1, 20)));
    assert!(p.y().is_zero());
    assert!(p.z().is_zero());
    // Squared distance from the origin is (1/20)^2.
    let m = p.magnitude_sq().unwrap();
    assert!(m.eq_rat(&r(1, 400)));
}

#[test]
fn sphere_points_keep_the_radius() {
    // Every sampled point of this sphere lies at squared distance
    // (root/40)^2 = 1/400 from the origin; 3/5-4/5 pairs make the trig
    // samples exact.
    let c = coefs([0, 0, 0, 0, 0, 4]);
    let t = TrigSample {
        cos_v: r(3, 5),
        sin_v: r(4, 5),
        cos_u: r(-4, 5),
        sin_u: r(3, 5),
        root: i(2),
    };
    let p = JiveSurface::solve(SurfaceKind::Sphere, 0, 0, &c, &t).unwrap();
    let m = p.magnitude_sq().unwrap();
    assert!(m.eq_rat(&r(1, 400)));
}

#[test]
fn ellipsoid_uses_the_smaller_semi_axis_for_z() {
    // a = 4/2 = 2, b = 6/2 = 3, c = min(a, b) = 2, d = sqrt(4)/2 = 1.
    // At v = 0: x = y = 0, z = c*d*(1/20)*cos(0) = 1/10.
    let c = coefs([4, 0, 6, 0, 0, 4]);
    let t = angle_samples(0.0, 0.0, 2.0);
    let p = JiveSurface::solve(SurfaceKind::Ellipsoid, 0, 0, &c, &t).unwrap();
    assert!(p.x().is_zero());
    assert!(p.y().is_zero());
    assert!(p.z().eq_rat(&r(1, 10)));
}

#[test]
fn hyperboloid_permutes_the_output_axes() {
    // At v = 0: cosh(0) = 1, sinh(0) = 0, theta = 0: the computed triple
    // (a/400, b/400*sin, sinh/20) comes out as (x, z, y).
    let c = coefs([8, 0, 12, 0, 0, 0]);
    let t = TrigSample {
        cos_v: i(1),
        sin_v: Scalar::zero(),
        cos_u: i(1),
        sin_u: Scalar::zero(),
        root: Scalar::zero(),
    };
    let p = JiveSurface::solve(SurfaceKind::Hyperboloid, 0, 0, &c, &t).unwrap();
    assert!(p.x().eq_rat(&r(8, 400)));
    assert!(p.y().is_zero());
    assert!(p.z().is_zero());
    // With sin(theta) = 1 the third slot carries the y-formula value.
    let t2 = TrigSample {
        cos_v: i(1),
        sin_v: Scalar::zero(),
        cos_u: Scalar::zero(),
        sin_u: i(1),
        root: Scalar::zero(),
    };
    let q = JiveSurface::solve(SurfaceKind::Hyperboloid, 0, 0, &c, &t2).unwrap();
    assert!(q.x().is_zero());
    assert!(q.y().is_zero());
    assert!(q.z().eq_rat(&r(12, 400)));
}

#[test]
fn paraboloid_grows_quadratically() {
    let c = coefs([2, 0, 4, 0, 0, 0]);
    let t = angle_samples(0.0, 0.0, 0.0);
    let p = JiveSurface::solve(SurfaceKind::Paraboloid, 3, 0, &c, &t).unwrap();
    // x = 2*(1/20)*3 = 3/10, y = 0, z = (1/20)*9.
    assert!(p.x().eq_rat(&r(3, 10)));
    assert!(p.y().is_zero());
    assert!(p.z().eq_rat(&r(9, 20)));
}

#[test]
fn fallback_is_the_documented_cone_like_shape() {
    let t = angle_samples(0.0, 0.0, 0.0);
    let p = jive::surface::solve_fallback(5, &t);
    assert!(p.x().eq_rat(&i(5)));
    assert!(p.y().is_zero());
    assert!(p.z().eq_rat(&i(5)));
}

#[test]
fn evaluation_is_bit_identical_across_calls() {
    let c = coefs([4, 7, 6, 5, 0, 4]);
    for kind in [
        SurfaceKind::Sphere,
        SurfaceKind::Ellipsoid,
        SurfaceKind::Hyperboloid,
        SurfaceKind::Paraboloid,
        SurfaceKind::Plane,
        SurfaceKind::Cone,
    ] {
        let t = angle_samples(40.0, 70.0, 2.0);
        let p1 = JiveSurface::solve(kind, 40, 70, &c, &t).unwrap();
        let p2 = JiveSurface::solve(kind, 40, 70, &c, &t).unwrap();
        assert_eq!(p1, p2);
    }
}

#[test]
fn surface_data_evaluates_the_whole_grid() {
    let s = JiveSurface::new(SurfaceKind::Sphere, coefs([0, 0, 0, 0, 0, 4]));
    let params = s.sample_params();
    let samples: Vec<TrigSample> = params
        .iter()
        .map(|(v, u)| angle_samples(*v as f64, *u as f64, 2.0))
        .collect();
    let pts = s.surface_data(&samples).unwrap();
    assert_eq!(pts.len(), 540);
    // The first point (v = 0, u = 0) sits at the pole: x = y = 0,
    // z = 1/20.
    assert!(pts[0].x().is_zero());
    assert!(pts[0].y().is_zero());
    assert!(pts[0].z().eq_rat(&r(1, 20)));
}

#[test]
fn surface_data_reports_degenerate_planes() {
    let s = JiveSurface::new(SurfaceKind::Plane, coefs([0, 0, 0, 5, 0, 0]));
    let params = s.sample_params();
    let samples: Vec<TrigSample> = params.iter().map(|_| zero_samples()).collect();
    assert_eq!(s.surface_data(&samples).unwrap_err(), JiveError::DegeneratePlane);
}

#[test]
fn rotate_roll_composes_with_the_transform() {
    let mut s = JiveSurface::new(SurfaceKind::Sphere, coefs([0, 0, 0, 0, 0, 4]));
    // Starting from the identity, one roll stores the roll matrix itself.
    s.rotate_roll(&r(3, 5), &r(4, 5)).unwrap();
    let m = &s.surface_transformation;
    assert!(m.e[0].eq_rat(&i(1)));
    assert!(m.e[4].eq_rat(&r(3, 5)));
    assert!(m.e[5].eq_rat(&r(-4, 5)));
    assert!(m.e[7].eq_rat(&r(4, 5)));
    assert!(m.e[8].eq_rat(&r(3, 5)));
    // A second roll composes: the angles add.
    s.rotate_roll(&r(3, 5), &r(4, 5)).unwrap();
    assert!(s.surface_transformation.e[4].eq_rat(&r(-7, 25)));
    assert!(s.surface_transformation.e[7].eq_rat(&r(24, 25)));
}

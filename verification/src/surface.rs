//! The parametric surface evaluator.
//!
//! A surface is a family tag plus six rational coefficients. For each pair
//! of grid parameters `(v, u)` (both in degrees, except where a family reads
//! a parameter as a plain coordinate) the evaluator produces one exact 3D
//! point. Sines, cosines, hyperbolic values and square roots are irrational
//! in general, so the caller supplies them as rational samples; every
//! contract here states the produced point exactly as a function of those
//! samples and the coefficients.

use vstd::prelude::*;

use crate::error::JiveError;
use crate::mat::{ident_rat, mat3_chain, roll_seq, Mat3x3};
use crate::rat::{lemma_mul_bound, lemma_mul_pos, norm, rat_lt, rat_zero, Rat, Scalar};
use crate::rat::reduce_small;
use crate::vec3::Vec3f;
use vstd::arithmetic::div_mod::{
    lemma_fundamental_div_mod, lemma_fundamental_div_mod_converse_div,
    lemma_fundamental_div_mod_converse_mod, lemma_mod_bound,
};
use vstd::arithmetic::mul::lemma_mul_inequality;

verus! {

/// The six surface families.
#[derive(Clone, Copy, PartialEq, Eq, Structural, Debug)]
pub enum SurfaceKind {
    Sphere,
    Ellipsoid,
    Hyperboloid,
    Paraboloid,
    Plane,
    Cone,
}

/// The family a numeric tag denotes: sphere 1, ellipsoid 2, hyperboloid 3,
/// paraboloid 4, plane 5, cone 6; anything else is invalid.
pub open spec fn tag_kind(tag: u8) -> Result<SurfaceKind, JiveError> {
    if tag == 1 {
        Ok(SurfaceKind::Sphere)
    } else if tag == 2 {
        Ok(SurfaceKind::Ellipsoid)
    } else if tag == 3 {
        Ok(SurfaceKind::Hyperboloid)
    } else if tag == 4 {
        Ok(SurfaceKind::Paraboloid)
    } else if tag == 5 {
        Ok(SurfaceKind::Plane)
    } else if tag == 6 {
        Ok(SurfaceKind::Cone)
    } else {
        Err(JiveError::InvalidSurfaceType)
    }
}

impl SurfaceKind {
    /// Decodes a numeric surface tag. An unknown tag is reported to the
    /// caller rather than silently mapped to a valid-looking surface; the
    /// caller may still choose the documented cone-like fallback
    /// (`solve_fallback`) or a default family.
    pub fn from_tag(tag: u8) -> (r: Result<SurfaceKind, JiveError>)
        ensures
            r == tag_kind(tag),
    {
        match tag {
            1 => Ok(SurfaceKind::Sphere),
            2 => Ok(SurfaceKind::Ellipsoid),
            3 => Ok(SurfaceKind::Hyperboloid),
            4 => Ok(SurfaceKind::Paraboloid),
            5 => Ok(SurfaceKind::Plane),
            6 => Ok(SurfaceKind::Cone),
            _ => Err(JiveError::InvalidSurfaceType),
        }
    }
}

/// A coefficient the evaluator accepts: numerator within 2^20 and
/// denominator within 2^10 in magnitude. These bounds let every exact
/// intermediate product fit the machine representation.
pub open spec fn coef_ok(c: Rat) -> bool {
    1 <= c.d <= 1024 && -1048576 <= c.n <= 1048576
}

/// A transcendental sample: a value of magnitude at most 2, with
/// denominator within 2^10.
pub open spec fn trig_ok(c: Rat) -> bool {
    1 <= c.d <= 1024 && -2048 <= c.n <= 2048
}

/// Mathematical counterpart of a `TrigSample`.
pub ghost struct TrigRats {
    pub cv: Rat,
    pub sv: Rat,
    pub cu: Rat,
    pub su: Rat,
    pub root: Rat,
}

/// Rational samples of the transcendental values one parameter pair needs.
///
/// For the sphere and the ellipsoid, `cos_v` / `sin_v` sample the v-angle θ
/// and `cos_u` / `sin_u` the u-angle ψ, each angle first converted from
/// degrees to radians; for the hyperboloid `cos_v` / `sin_v` carry
/// cosh(v/10) and sinh(v/10); the paraboloid and the cone read only
/// `cos_u` / `sin_u`; the cone-like fallback reads only `cos_v` / `sin_v`.
/// `root` carries sqrt(|coef[5]|) where the family uses it.
#[derive(Clone, Copy, PartialEq, Eq, Debug)]
pub struct TrigSample {
    pub cos_v: Scalar,
    pub sin_v: Scalar,
    pub cos_u: Scalar,
    pub sin_u: Scalar,
    pub root: Scalar,
}

impl View for TrigSample {
    type V = TrigRats;

    open spec fn view(&self) -> TrigRats {
        TrigRats {
            cv: self.cos_v@,
            sv: self.sin_v@,
            cu: self.cos_u@,
            su: self.sin_u@,
            root: self.root@,
        }
    }
}

/// Bounds under which the evaluator is total.
pub open spec fn trig_sample_ok(t: TrigRats) -> bool {
    trig_ok(t.cv) && trig_ok(t.sv) && trig_ok(t.cu) && trig_ok(t.su) && coef_ok(t.root)
}

/// Sphere point: with d = root/2 and s = 1/20,
/// `x = d*s*cos(ψ)*sin(θ), y = d*s*sin(ψ)*sin(θ), z = d*s*cos(θ)`,
/// each component in lowest terms.
pub open spec fn sphere_pt(t: TrigRats) -> (Rat, Rat, Rat) {
    (
        norm(Rat { n: t.root.n * t.cu.n * t.sv.n, d: 40 * t.root.d * t.cu.d * t.sv.d }),
        norm(Rat { n: t.root.n * t.su.n * t.sv.n, d: 40 * t.root.d * t.su.d * t.sv.d }),
        norm(Rat { n: t.root.n * t.cv.n, d: 40 * t.root.d * t.cv.d }),
    )
}

/// Half of a coefficient, as the ellipsoid semi-axes use it.
pub open spec fn ellip_half(c: Rat) -> Rat {
    Rat { n: c.n, d: 2 * c.d }
}

/// The smaller of the two semi-axis values, by rational comparison; ties
/// keep the first.
pub open spec fn ellip_min(a: Rat, b: Rat) -> Rat {
    if rat_lt(b, a) {
        b
    } else {
        a
    }
}

/// Ellipsoid point: with a = coef0/2, b = coef2/2, c = min(a, b),
/// d = root/2 and s = 1/20,
/// `x = a*d*s*cos(ψ)*sin(θ), y = b*d*s*sin(ψ)*sin(θ), z = c*d*s*cos(θ)`.
pub open spec fn ellipsoid_pt(c0: Rat, c2: Rat, t: TrigRats) -> (Rat, Rat, Rat) {
    let ah = ellip_half(c0);
    let bh = ellip_half(c2);
    let ch = ellip_min(ah, bh);
    (
        norm(Rat { n: ah.n * t.root.n * t.cu.n * t.sv.n, d: 40 * ah.d * t.root.d * t.cu.d * t.sv.d }),
        norm(Rat { n: bh.n * t.root.n * t.su.n * t.sv.n, d: 40 * bh.d * t.root.d * t.su.d * t.sv.d }),
        norm(Rat { n: ch.n * t.root.n * t.cv.n, d: 40 * ch.d * t.root.d * t.cv.d }),
    )
}

/// Hyperboloid point: with s = 1/20, the evaluator computes
/// `x = s*coef0*s*cosh(v/10)*cos(θ)`, `y = s*coef2*s*cosh(v/10)*sin(θ)`,
/// `z = s*sinh(v/10)` and hands the axes out permuted as `(x, z, y)`.
pub open spec fn hyperboloid_pt(c0: Rat, c2: Rat, t: TrigRats) -> (Rat, Rat, Rat) {
    (
        norm(Rat { n: c0.n * t.cv.n * t.cu.n, d: 400 * c0.d * t.cv.d * t.cu.d }),
        norm(Rat { n: t.sv.n, d: 20 * t.sv.d }),
        norm(Rat { n: c2.n * t.cv.n * t.su.n, d: 400 * c2.d * t.cv.d * t.su.d }),
    )
}

/// Paraboloid point: with s = 1/20,
/// `x = coef0*s*v*cos(θ), y = coef2*s*v*sin(θ), z = s*v*v`.
pub open spec fn paraboloid_pt(c0: Rat, c2: Rat, v: int, t: TrigRats) -> (Rat, Rat, Rat) {
    (
        norm(Rat { n: c0.n * v * t.cu.n, d: 20 * c0.d * t.cu.d }),
        norm(Rat { n: c2.n * v * t.su.n, d: 20 * c2.d * t.su.d }),
        norm(Rat { n: v * v, d: 20 }),
    )
}

/// Cone point: with s = coef1 / (200*coef0),
/// `x = s*v*cos(θ), y = s*v*sin(θ), z = s*coef0*v`. Meaningful only when
/// coef0 is nonzero; the evaluator reports a zero coef0 as degenerate.
pub open spec fn cone_pt(c0: Rat, c1: Rat, v: int, t: TrigRats) -> (Rat, Rat, Rat) {
    let sn = if c0.n >= 0 {
        c1.n * c0.d
    } else {
        -(c1.n * c0.d)
    };
    let sd = if c0.n >= 0 {
        200 * c1.d * c0.n
    } else {
        200 * c1.d * (-c0.n)
    };
    (
        norm(Rat { n: sn * v * t.cu.n, d: sd * t.cu.d }),
        norm(Rat { n: sn * v * t.su.n, d: sd * t.su.d }),
        norm(Rat { n: sn * c0.n * v, d: sd * c0.d }),
    )
}

/// The z-component of a plane point in the general case, before scaling:
/// `z = (d - a*u - b*v) / c`, folded with the 1/20 scale.
pub open spec fn plane_z_general(a: Rat, b: Rat, c: Rat, d: Rat, v: int, u: int) -> Rat {
    let tn = (d.n * a.d - a.n * u * d.d) * b.d - b.n * v * (d.d * a.d);
    let td = d.d * a.d * b.d;
    let zn = if c.n >= 0 {
        tn * c.d
    } else {
        -(tn * c.d)
    };
    let zd = if c.n >= 0 {
        td * c.n
    } else {
        td * (-c.n)
    };
    norm(Rat { n: zn, d: zd * 20 })
}

/// A parameter scaled by 1/20, in lowest terms.
pub open spec fn param_scaled(p: int) -> Rat {
    norm(Rat { n: p, d: 20 })
}

/// A coefficient scaled by 1/20, in lowest terms.
pub open spec fn coef_scaled(c: Rat) -> Rat {
    norm(Rat { n: c.n, d: 20 * c.d })
}

/// Plane point, by exhaustive case analysis over which of a, b, c are
/// zero. The evaluator solves `a*x + b*y + c*z = d` for z where c is
/// nonzero, hands the free parameters through where it can, and reports
/// the two coefficient patterns that determine no z: all three zero
/// (no plane at all), and c zero with a and b nonzero.
/// All components carry the global 1/20 scale.
pub open spec fn plane_result(a: Rat, b: Rat, c: Rat, d: Rat, v: int, u: int) -> Result<
    (Rat, Rat, Rat),
    JiveError,
> {
    if a.n == 0 && b.n == 0 && c.n == 0 {
        Err(JiveError::DegeneratePlane)
    } else if c.n == 0 && a.n != 0 && b.n != 0 {
        Err(JiveError::UnsolvablePlane)
    } else if a.n == 0 && b.n == 0 {
        Ok((param_scaled(u), param_scaled(v), coef_scaled(d)))
    } else if b.n == 0 && c.n == 0 {
        Ok((param_scaled(u), coef_scaled(d), param_scaled(v)))
    } else if a.n == 0 && c.n == 0 {
        Ok((coef_scaled(d), param_scaled(v), param_scaled(u)))
    } else {
        Ok((param_scaled(u), param_scaled(v), plane_z_general(a, b, c, d, v, u)))
    }
}

/// Cone-like fallback for an unrecognized surface tag:
/// `x = u*cos(v), y = u*sin(v), z = u`, with v read as the angle.
pub open spec fn fallback_pt(u: int, t: TrigRats) -> (Rat, Rat, Rat) {
    (
        norm(Rat { n: u * t.cv.n, d: t.cv.d }),
        norm(Rat { n: u * t.sv.n, d: t.sv.d }),
        norm(Rat { n: u, d: 1 }),
    )
}

/// The error a family reports, which depends on the coefficients alone.
pub open spec fn solve_err(kind: SurfaceKind, coef: Seq<Rat>) -> Option<JiveError> {
    match kind {
        SurfaceKind::Cone => if coef[0].n == 0 {
            Some(JiveError::DegenerateCone)
        } else {
            None
        },
        SurfaceKind::Plane => if coef[0].n == 0 && coef[1].n == 0 && coef[2].n == 0 {
            Some(JiveError::DegeneratePlane)
        } else if coef[2].n == 0 && coef[0].n != 0 && coef[1].n != 0 {
            Some(JiveError::UnsolvablePlane)
        } else {
            None
        },
        _ => None,
    }
}

/// The point a family produces on coefficients it accepts.
pub open spec fn point_of(kind: SurfaceKind, v: int, u: int, coef: Seq<Rat>, t: TrigRats) -> (
    Rat,
    Rat,
    Rat,
) {
    match kind {
        SurfaceKind::Sphere => sphere_pt(t),
        SurfaceKind::Ellipsoid => ellipsoid_pt(coef[0], coef[2], t),
        SurfaceKind::Hyperboloid => hyperboloid_pt(coef[0], coef[2], t),
        SurfaceKind::Paraboloid => paraboloid_pt(coef[0], coef[2], v, t),
        SurfaceKind::Plane => match plane_result(coef[0], coef[1], coef[2], coef[3], v, u) {
            Ok(p) => p,
            Err(_) => (rat_zero(), rat_zero(), rat_zero()),
        },
        SurfaceKind::Cone => cone_pt(coef[0], coef[1], v, t),
    }
}

/// What `solve` returns, at the level of the mathematical model.
pub open spec fn solve_rat(kind: SurfaceKind, v: int, u: int, coef: Seq<Rat>, t: TrigRats) -> Result<
    (Rat, Rat, Rat),
    JiveError,
> {
    match solve_err(kind, coef) {
        Some(e) => Err(e),
        None => Ok(point_of(kind, v, u, coef, t)),
    }
}

/// The views of six coefficients.
pub open spec fn coef_rats(c: [Scalar; 6]) -> Seq<Rat> {
    Seq::new(6, |i: int| c[i]@)
}

/// All six coefficients are within the accepted range.
pub open spec fn coefs_ok(c: [Scalar; 6]) -> bool {
    forall|k: int| 0 <= k < 6 ==> coef_ok((#[trigger] c[k])@)
}

/// The view of an evaluation result.
pub open spec fn res_rats(r: Result<Vec3f, JiveError>) -> Result<(Rat, Rat, Rat), JiveError> {
    match r {
        Ok(p) => Ok(p@),
        Err(e) => Err(e),
    }
}

/// Bounds `((x0*x1)*x2)*x3` by the product of the per-factor bounds.
proof fn lemma_bound4(x0: int, x1: int, x2: int, x3: int, b0: int, b1: int, b2: int, b3: int)
    requires
        -b0 <= x0 <= b0,
        -b1 <= x1 <= b1,
        -b2 <= x2 <= b2,
        -b3 <= x3 <= b3,
        0 <= b0,
        0 <= b1,
        0 <= b2,
        0 <= b3,
    ensures
        -(b0 * b1) <= x0 * x1 <= b0 * b1,
        -((b0 * b1) * b2) <= (x0 * x1) * x2 <= (b0 * b1) * b2,
        -(((b0 * b1) * b2) * b3) <= ((x0 * x1) * x2) * x3 <= ((b0 * b1) * b2) * b3,
{
    lemma_mul_bound(x0, x1, b0, b1);
    lemma_mul_bound(x0 * x1, x2, b0 * b1, b2);
    lemma_mul_bound((x0 * x1) * x2, x3, (b0 * b1) * b2, b3);
}

/// Bounds a product of positive factors from both sides.
proof fn lemma_pos4(x0: int, x1: int, x2: int, x3: int, b0: int, b1: int, b2: int, b3: int)
    requires
        1 <= x0 <= b0,
        1 <= x1 <= b1,
        1 <= x2 <= b2,
        1 <= x3 <= b3,
    ensures
        1 <= x0 * x1 <= b0 * b1,
        1 <= (x0 * x1) * x2 <= (b0 * b1) * b2,
        1 <= ((x0 * x1) * x2) * x3 <= ((b0 * b1) * b2) * b3,
{
    lemma_mul_pos(x0, x1, b0, b1);
    lemma_mul_pos(x0 * x1, x2, b0 * b1, b2);
    lemma_mul_pos((x0 * x1) * x2, x3, (b0 * b1) * b2, b3);
}

/// Sphere evaluation.
fn solve_sphere(t: &TrigSample) -> (r: Vec3f)
    requires
        trig_sample_ok(t@),
    ensures
        r.wf(),
        r@ == sphere_pt(t@),
{
    let rn: i64 = t.root.num();
    let rd: i64 = t.root.den();
    let cvn: i64 = t.cos_v.num();
    let cvd: i64 = t.cos_v.den();
    let svn: i64 = t.sin_v.num();
    let svd: i64 = t.sin_v.den();
    let cun: i64 = t.cos_u.num();
    let cud: i64 = t.cos_u.den();
    let sun: i64 = t.sin_u.num();
    let sud: i64 = t.sin_u.den();
    proof {
        lemma_bound4(rn as int, cun as int, svn as int, 1, 1048576, 2048, 2048, 1);
        lemma_bound4(rn as int, sun as int, svn as int, 1, 1048576, 2048, 2048, 1);
        lemma_mul_bound(rn as int, cvn as int, 1048576, 2048);
        lemma_pos4(40, rd as int, cud as int, svd as int, 40, 1024, 1024, 1024);
        lemma_pos4(40, rd as int, sud as int, svd as int, 40, 1024, 1024, 1024);
        lemma_pos4(40, rd as int, cvd as int, 1, 40, 1024, 1024, 1);
    }
    let qx = reduce_small(
        ((rn as i128) * (cun as i128)) * (svn as i128),
        ((40 * (rd as i128)) * (cud as i128)) * (svd as i128),
    );
    let qy = reduce_small(
        ((rn as i128) * (sun as i128)) * (svn as i128),
        ((40 * (rd as i128)) * (sud as i128)) * (svd as i128),
    );
    let qz = reduce_small((rn as i128) * (cvn as i128), (40 * (rd as i128)) * (cvd as i128));
    Vec3f { e: [qx, qy, qz] }
}

/// Ellipsoid evaluation.
fn solve_ellipsoid(c0: &Scalar, c2: &Scalar, t: &TrigSample) -> (r: Vec3f)
    requires
        coef_ok(c0@),
        coef_ok(c2@),
        trig_sample_ok(t@),
    ensures
        r.wf(),
        r@ == ellipsoid_pt(c0@, c2@, t@),
{
    let an: i64 = c0.num();
    let ad: i64 = 2 * c0.den();
    let bn: i64 = c2.num();
    let bd: i64 = 2 * c2.den();
    proof {
        lemma_mul_bound(bn as int, ad as int, 1048576, 2048);
        lemma_mul_bound(an as int, bd as int, 1048576, 2048);
    }
    let b_lt_a: bool = (bn as i128) * (ad as i128) < (an as i128) * (bd as i128);
    let cn: i64 = if b_lt_a {
        bn
    } else {
        an
    };
    let cd: i64 = if b_lt_a {
        bd
    } else {
        ad
    };
    let rn: i64 = t.root.num();
    let rd: i64 = t.root.den();
    let cvn: i64 = t.cos_v.num();
    let cvd: i64 = t.cos_v.den();
    let svn: i64 = t.sin_v.num();
    let svd: i64 = t.sin_v.den();
    let cun: i64 = t.cos_u.num();
    let cud: i64 = t.cos_u.den();
    let sun: i64 = t.sin_u.num();
    let sud: i64 = t.sin_u.den();
    proof {
        lemma_bound4(an as int, rn as int, cun as int, svn as int, 1048576, 1048576, 2048, 2048);
        lemma_bound4(bn as int, rn as int, sun as int, svn as int, 1048576, 1048576, 2048, 2048);
        lemma_bound4(cn as int, rn as int, cvn as int, 1, 1048576, 1048576, 2048, 1);
        lemma_pos4(40 * (ad as int), rd as int, cud as int, svd as int, 81920, 1024, 1024, 1024);
        lemma_pos4(40 * (bd as int), rd as int, sud as int, svd as int, 81920, 1024, 1024, 1024);
        lemma_pos4(40 * (cd as int), rd as int, cvd as int, 1, 81920, 1024, 1024, 1);
    }
    let qx = reduce_small(
        (((an as i128) * (rn as i128)) * (cun as i128)) * (svn as i128),
        (((40 * (ad as i128)) * (rd as i128)) * (cud as i128)) * (svd as i128),
    );
    let qy = reduce_small(
        (((bn as i128) * (rn as i128)) * (sun as i128)) * (svn as i128),
        (((40 * (bd as i128)) * (rd as i128)) * (sud as i128)) * (svd as i128),
    );
    let qz = reduce_small(
        ((cn as i128) * (rn as i128)) * (cvn as i128),
        ((40 * (cd as i128)) * (rd as i128)) * (cvd as i128),
    );
    Vec3f { e: [qx, qy, qz] }
}

/// Hyperboloid evaluation.
fn solve_hyperboloid(c0: &Scalar, c2: &Scalar, t: &TrigSample) -> (r: Vec3f)
    requires
        coef_ok(c0@),
        coef_ok(c2@),
        trig_sample_ok(t@),
    ensures
        r.wf(),
        r@ == hyperboloid_pt(c0@, c2@, t@),
{
    let an: i64 = c0.num();
    let ad: i64 = c0.den();
    let bn: i64 = c2.num();
    let bd: i64 = c2.den();
    let cvn: i64 = t.cos_v.num();
    let cvd: i64 = t.cos_v.den();
    let svn: i64 = t.sin_v.num();
    let svd: i64 = t.sin_v.den();
    let cun: i64 = t.cos_u.num();
    let cud: i64 = t.cos_u.den();
    let sun: i64 = t.sin_u.num();
    let sud: i64 = t.sin_u.den();
    proof {
        lemma_bound4(an as int, cvn as int, cun as int, 1, 1048576, 2048, 2048, 1);
        lemma_bound4(bn as int, cvn as int, sun as int, 1, 1048576, 2048, 2048, 1);
        lemma_pos4(400 * (ad as int), cvd as int, cud as int, 1, 409600, 1024, 1024, 1);
        lemma_pos4(400 * (bd as int), cvd as int, sud as int, 1, 409600, 1024, 1024, 1);
    }
    let qx = reduce_small(
        ((an as i128) * (cvn as i128)) * (cun as i128),
        ((400 * (ad as i128)) * (cvd as i128)) * (cud as i128),
    );
    let qmid = reduce_small(svn as i128, 20 * (svd as i128));
    let qlast = reduce_small(
        ((bn as i128) * (cvn as i128)) * (sun as i128),
        ((400 * (bd as i128)) * (cvd as i128)) * (sud as i128),
    );
    Vec3f { e: [qx, qmid, qlast] }
}

/// Paraboloid evaluation.
fn solve_paraboloid(c0: &Scalar, c2: &Scalar, v: u64, t: &TrigSample) -> (r: Vec3f)
    requires
        coef_ok(c0@),
        coef_ok(c2@),
        v <= 1024,
        trig_sample_ok(t@),
    ensures
        r.wf(),
        r@ == paraboloid_pt(c0@, c2@, v as int, t@),
{
    let an: i64 = c0.num();
    let ad: i64 = c0.den();
    let bn: i64 = c2.num();
    let bd: i64 = c2.den();
    let cun: i64 = t.cos_u.num();
    let cud: i64 = t.cos_u.den();
    let sun: i64 = t.sin_u.num();
    let sud: i64 = t.sin_u.den();
    proof {
        lemma_bound4(an as int, v as int, cun as int, 1, 1048576, 1024, 2048, 1);
        lemma_bound4(bn as int, v as int, sun as int, 1, 1048576, 1024, 2048, 1);
        lemma_mul_bound(v as int, v as int, 1024, 1024);
        lemma_mul_pos(20 * (ad as int), cud as int, 20480, 1024);
        lemma_mul_pos(20 * (bd as int), sud as int, 20480, 1024);
    }
    let qx = reduce_small(
        ((an as i128) * (v as i128)) * (cun as i128),
        (20 * (ad as i128)) * (cud as i128),
    );
    let qy = reduce_small(
        ((bn as i128) * (v as i128)) * (sun as i128),
        (20 * (bd as i128)) * (sud as i128),
    );
    let qz = reduce_small((v as i128) * (v as i128), 20);
    Vec3f { e: [qx, qy, qz] }
}

/// Cone evaluation; the caller has already rejected a zero steepness
/// coefficient.
fn solve_cone(c0: &Scalar, c1: &Scalar, v: u64, t: &TrigSample) -> (r: Vec3f)
    requires
        coef_ok(c0@),
        coef_ok(c1@),
        c0@.n != 0,
        v <= 1024,
        trig_sample_ok(t@),
    ensures
        r.wf(),
        r@ == cone_pt(c0@, c1@, v as int, t@),
{
    let an: i64 = c0.num();
    let ad: i64 = c0.den();
    let hn: i64 = c1.num();
    let hd: i64 = c1.den();
    let cun: i64 = t.cos_u.num();
    let cud: i64 = t.cos_u.den();
    let sun: i64 = t.sin_u.num();
    let sud: i64 = t.sin_u.den();
    proof {
        lemma_mul_bound(hn as int, ad as int, 1048576, 1024);
    }
    let sn: i128 = if an >= 0 {
        (hn as i128) * (ad as i128)
    } else {
        -((hn as i128) * (ad as i128))
    };
    proof {
        if an >= 0 {
            lemma_mul_pos(200 * (hd as int), an as int, 204800, 1048576);
        } else {
            lemma_mul_pos(200 * (hd as int), -(an as int), 204800, 1048576);
        }
    }
    let sd: i128 = if an >= 0 {
        (200 * (hd as i128)) * (an as i128)
    } else {
        (200 * (hd as i128)) * ((-an) as i128)
    };
    proof {
        lemma_bound4(sn as int, v as int, cun as int, 1, 1073741824, 1024, 2048, 1);
        lemma_bound4(sn as int, v as int, sun as int, 1, 1073741824, 1024, 2048, 1);
        lemma_bound4(sn as int, an as int, v as int, 1, 1073741824, 1048576, 1024, 1);
        lemma_mul_pos(sd as int, cud as int, 214748364800, 1024);
        lemma_mul_pos(sd as int, sud as int, 214748364800, 1024);
        lemma_mul_pos(sd as int, ad as int, 214748364800, 1024);
    }
    let qx = reduce_small((sn * (v as i128)) * (cun as i128), sd * (cud as i128));
    let qy = reduce_small((sn * (v as i128)) * (sun as i128), sd * (sud as i128));
    let qz = reduce_small((sn * (an as i128)) * (v as i128), sd * (ad as i128));
    Vec3f { e: [qx, qy, qz] }
}

/// Plane evaluation.
fn solve_plane(ca: &Scalar, cb: &Scalar, cc: &Scalar, cd_c: &Scalar, v: u64, u: u64) -> (r: Result<
    Vec3f,
    JiveError,
>)
    requires
        coef_ok(ca@),
        coef_ok(cb@),
        coef_ok(cc@),
        coef_ok(cd_c@),
        v <= 1024,
        u <= 1024,
    ensures
        res_rats(r) == plane_result(ca@, cb@, cc@, cd_c@, v as int, u as int),
        match r {
            Ok(p) => p.wf(),
            Err(_) => true,
        },
{
    let an: i64 = ca.num();
    let ad: i64 = ca.den();
    let bn: i64 = cb.num();
    let bd: i64 = cb.den();
    let cn: i64 = cc.num();
    let cd: i64 = cc.den();
    let dn: i64 = cd_c.num();
    let dd: i64 = cd_c.den();
    if an == 0 && bn == 0 && cn == 0 {
        return Err(JiveError::DegeneratePlane);
    }
    if cn == 0 && an != 0 && bn != 0 {
        return Err(JiveError::UnsolvablePlane);
    }
    let qu = reduce_small(u as i128, 20);
    let qv = reduce_small(v as i128, 20);
    if an == 0 && bn == 0 {
        let qd = reduce_small(dn as i128, 20 * (dd as i128));
        return Ok(Vec3f { e: [qu, qv, qd] });
    }
    if bn == 0 && cn == 0 {
        let qd = reduce_small(dn as i128, 20 * (dd as i128));
        return Ok(Vec3f { e: [qu, qd, qv] });
    }
    if an == 0 && cn == 0 {
        let qd = reduce_small(dn as i128, 20 * (dd as i128));
        return Ok(Vec3f { e: [qd, qv, qu] });
    }
    proof {
        lemma_mul_bound(dn as int, ad as int, 1048576, 1024);
        lemma_bound4(an as int, u as int, dd as int, 1, 1048576, 1024, 1024, 1);
    }
    let t1: i128 = (dn as i128) * (ad as i128) - ((an as i128) * (u as i128)) * (dd as i128);
    proof {
        lemma_mul_bound(t1 as int, bd as int, 2199023255552, 1024);
        lemma_mul_pos(dd as int, ad as int, 1024, 1024);
        lemma_bound4(bn as int, v as int, (dd as int) * (ad as int), 1, 1048576, 1024, 1048576, 1);
    }
    let tn: i128 = t1 * (bd as i128) - ((bn as i128) * (v as i128)) * ((dd as i128) * (ad as i128));
    proof {
        lemma_mul_bound(tn as int, cd as int, 4503599627370496, 1024);
        lemma_pos4(dd as int, ad as int, bd as int, 1, 1024, 1024, 1024, 1);
        if cn >= 0 {
            lemma_mul_pos(((dd as int) * (ad as int)) * (bd as int), cn as int, 1073741824, 1048576);
        } else {
            lemma_mul_pos(
                ((dd as int) * (ad as int)) * (bd as int),
                -(cn as int),
                1073741824,
                1048576,
            );
        }
    }
    let td: i128 = ((dd as i128) * (ad as i128)) * (bd as i128);
    let zn: i128 = if cn >= 0 {
        tn * (cd as i128)
    } else {
        -(tn * (cd as i128))
    };
    let zd: i128 = if cn >= 0 {
        td * (cn as i128)
    } else {
        td * ((-cn) as i128)
    };
    let qz = reduce_small(zn, zd * 20);
    Ok(Vec3f { e: [qu, qv, qz] })
}

/// The cone-like fallback evaluation for an unrecognized surface tag.
pub fn solve_fallback(u_parameter: u64, trig: &TrigSample) -> (r: Vec3f)
    requires
        u_parameter <= 1024,
        trig_sample_ok(trig@),
    ensures
        r.wf(),
        r@ == fallback_pt(u_parameter as int, trig@),
{
    let cvn: i64 = trig.cos_v.num();
    let cvd: i64 = trig.cos_v.den();
    let svn: i64 = trig.sin_v.num();
    let svd: i64 = trig.sin_v.den();
    proof {
        lemma_mul_bound(u_parameter as int, cvn as int, 1024, 2048);
        lemma_mul_bound(u_parameter as int, svn as int, 1024, 2048);
    }
    let qx = reduce_small((u_parameter as i128) * (cvn as i128), cvd as i128);
    let qy = reduce_small((u_parameter as i128) * (svn as i128), svd as i128);
    let qz = reduce_small(u_parameter as i128, 1);
    Vec3f { e: [qx, qy, qz] }
}

/// The sampling grid of each family:
/// `(vMin, vMax, vStep, uMin, uMax, uStep)`, in degrees where the
/// parameter is an angle. Both parameter ranges are half-open.
pub open spec fn grid_spec(kind: SurfaceKind) -> (int, int, int, int, int, int) {
    match kind {
        SurfaceKind::Sphere => (0, 180, 30, 0, 360, 4),
        SurfaceKind::Ellipsoid => (0, 180, 10, 0, 360, 4),
        SurfaceKind::Hyperboloid => (0, 10, 1, 0, 360, 4),
        SurfaceKind::Paraboloid => (0, 10, 1, 0, 360, 4),
        SurfaceKind::Plane => (0, 10, 1, 0, 10, 1),
        SurfaceKind::Cone => (0, 10, 1, 0, 360, 1),
    }
}

/// How many samples the half-open range `[lo, hi)` stepped by `step`
/// contains.
pub open spec fn steps_between(lo: int, hi: int, step: int) -> int
    recommends
        step >= 1,
{
    if hi <= lo {
        0
    } else {
        (hi - lo - 1) / step + 1
    }
}

/// A completed walk over a stepped range has taken exactly
/// `steps_between` steps.
proof fn lemma_steps_complete(lo: int, hi: int, step: int, i: int)
    requires
        step >= 1,
        i >= 1,
        lo + (i - 1) * step < hi,
        lo + i * step >= hi,
    ensures
        i == steps_between(lo, hi, step),
{
    let x = hi - lo - 1;
    let r = x - (i - 1) * step;
    assert(i * step == (i - 1) * step + step) by (nonlinear_arith);
    lemma_fundamental_div_mod_converse_div(x, step, i - 1, r);
}

/// A position still short of the end of a stepped range is numbered below
/// `steps_between`.
proof fn lemma_steps_partial(lo: int, hi: int, step: int, i: int)
    requires
        step >= 1,
        0 <= i,
        lo + i * step < hi,
    ensures
        i < steps_between(lo, hi, step),
{
    let x = hi - lo - 1;
    lemma_fundamental_div_mod_converse_div(i * step, step, i, 0);
    vstd::arithmetic::div_mod::lemma_div_is_ordered(i * step, x, step);
}

/// A position numbered below `steps_between` is still short of the end.
proof fn lemma_step_lt(lo: int, hi: int, step: int, i: int)
    requires
        step >= 1,
        0 <= i,
        lo < hi,
        i < steps_between(lo, hi, step),
    ensures
        lo + i * step < hi,
{
    let x = hi - lo - 1;
    let q = x / step;
    lemma_fundamental_div_mod(x, step);
    lemma_mod_bound(x, step);
    lemma_mul_inequality(i, q, step);
    assert(q * step <= x) by (nonlinear_arith)
        requires
            x == step * q + x % step,
            x % step >= 0,
    ;
}

/// A surface: a family tag, six coefficients, a model transform updated
/// only by explicit rotation calls, and the sampling grid the family
/// fixes at construction.
///
/// The model transform is shared mutable state across render passes:
/// callers must not rotate a surface while a pass is reading it
/// (single writer, no reader during a write).
pub struct JiveSurface {
    pub surface_flag: SurfaceKind,
    pub surface_coefficients: [Scalar; 6],
    pub surface_transformation: Mat3x3,
    pub vmin: u64,
    pub vmax: u64,
    pub vstep: u64,
    pub umin: u64,
    pub umax: u64,
    pub ustep: u64,
}

impl JiveSurface {
    /// The grid fields are exactly what the family prescribes.
    pub open spec fn grid_ok(self) -> bool {
        (
            self.vmin as int,
            self.vmax as int,
            self.vstep as int,
            self.umin as int,
            self.umax as int,
            self.ustep as int,
        ) == grid_spec(self.surface_flag)
    }

    pub open spec fn wf(self) -> bool {
        coefs_ok(self.surface_coefficients) && self.surface_transformation.wf() && self.grid_ok()
    }

    /// Number of v-samples of the grid.
    pub open spec fn nv(self) -> int {
        steps_between(self.vmin as int, self.vmax as int, self.vstep as int)
    }

    /// Number of u-samples of the grid.
    pub open spec fn nu(self) -> int {
        steps_between(self.umin as int, self.umax as int, self.ustep as int)
    }
}

/// Concrete bounds every family grid obeys.
proof fn lemma_grid_bounds(s: JiveSurface)
    requires
        s.grid_ok(),
    ensures
        s.vmin == 0,
        s.umin == 0,
        1 <= s.vstep <= 1024,
        1 <= s.ustep <= 1024,
        1 <= s.vmax <= 1024,
        1 <= s.umax <= 1024,
        1 <= s.nv() <= 1024,
        1 <= s.nu() <= 1024,
{
    match s.surface_flag {
        SurfaceKind::Sphere => {},
        SurfaceKind::Ellipsoid => {},
        SurfaceKind::Hyperboloid => {},
        SurfaceKind::Paraboloid => {},
        SurfaceKind::Plane => {},
        SurfaceKind::Cone => {},
    }
}

impl JiveSurface {
    /// Builds a surface of the given family: the coefficients are stored,
    /// the model transform starts as the identity, and the sampling grid
    /// is the family's own.
    pub fn new(flag: SurfaceKind, coefficients: [Scalar; 6]) -> (r: JiveSurface)
        requires
            coefs_ok(coefficients),
        ensures
            r.wf(),
            r.surface_flag == flag,
            r.surface_coefficients == coefficients,
            forall|k: int| 0 <= k < 9 ==> r.surface_transformation@[k] == ident_rat(k),
    {
        let identity: Mat3x3 = Mat3x3::identity();
        match flag {
            SurfaceKind::Sphere => JiveSurface {
                surface_flag: flag,
                surface_coefficients: coefficients,
                surface_transformation: identity,
                vmin: 0,
                vmax: 180,
                vstep: 30,
                umin: 0,
                umax: 360,
                ustep: 4,
            },
            SurfaceKind::Ellipsoid => JiveSurface {
                surface_flag: flag,
                surface_coefficients: coefficients,
                surface_transformation: identity,
                vmin: 0,
                vmax: 180,
                vstep: 10,
                umin: 0,
                umax: 360,
                ustep: 4,
            },
            SurfaceKind::Hyperboloid => JiveSurface {
                surface_flag: flag,
                surface_coefficients: coefficients,
                surface_transformation: identity,
                vmin: 0,
                vmax: 10,
                vstep: 1,
                umin: 0,
                umax: 360,
                ustep: 4,
            },
            SurfaceKind::Paraboloid => JiveSurface {
                surface_flag: flag,
                surface_coefficients: coefficients,
                surface_transformation: identity,
                vmin: 0,
                vmax: 10,
                vstep: 1,
                umin: 0,
                umax: 360,
                ustep: 4,
            },
            SurfaceKind::Plane => JiveSurface {
                surface_flag: flag,
                surface_coefficients: coefficients,
                surface_transformation: identity,
                vmin: 0,
                vmax: 10,
                vstep: 1,
                umin: 0,
                umax: 10,
                ustep: 1,
            },
            SurfaceKind::Cone => JiveSurface {
                surface_flag: flag,
                surface_coefficients: coefficients,
                surface_transformation: identity,
                vmin: 0,
                vmax: 10,
                vstep: 1,
                umin: 0,
                umax: 360,
                ustep: 1,
            },
        }
    }

    /// Evaluates one point of a surface family at the parameter pair
    /// `(v, u)` with the supplied transcendental samples. The result is an
    /// error exactly on the degenerate coefficient patterns of
    /// `solve_err`; on all other inputs the point is owed and stated
    /// exactly.
    pub fn solve(
        surface_type: SurfaceKind,
        v_parameter: u64,
        u_parameter: u64,
        surface_coefficients: &[Scalar; 6],
        trig: &TrigSample,
    ) -> (r: Result<Vec3f, JiveError>)
        requires
            coefs_ok(*surface_coefficients),
            trig_sample_ok(trig@),
            v_parameter <= 1024,
            u_parameter <= 1024,
        ensures
            res_rats(r) == solve_rat(
                surface_type,
                v_parameter as int,
                u_parameter as int,
                coef_rats(*surface_coefficients),
                trig@,
            ),
            match r {
                Ok(p) => p.wf(),
                Err(_) => true,
            },
    {
        match surface_type {
            SurfaceKind::Sphere => Ok(solve_sphere(trig)),
            SurfaceKind::Ellipsoid => Ok(
                solve_ellipsoid(&surface_coefficients[0], &surface_coefficients[2], trig),
            ),
            SurfaceKind::Hyperboloid => Ok(
                solve_hyperboloid(&surface_coefficients[0], &surface_coefficients[2], trig),
            ),
            SurfaceKind::Paraboloid => Ok(
                solve_paraboloid(
                    &surface_coefficients[0],
                    &surface_coefficients[2],
                    v_parameter,
                    trig,
                ),
            ),
            SurfaceKind::Plane => solve_plane(
                &surface_coefficients[0],
                &surface_coefficients[1],
                &surface_coefficients[2],
                &surface_coefficients[3],
                v_parameter,
                u_parameter,
            ),
            SurfaceKind::Cone => {
                if surface_coefficients[0].is_zero() {
                    Err(JiveError::DegenerateCone)
                } else {
                    Ok(
                        solve_cone(
                            &surface_coefficients[0],
                            &surface_coefficients[1],
                            v_parameter,
                            trig,
                        ),
                    )
                }
            },
        }
    }

    /// Composes the model transform with a roll (rotation about the
    /// x-axis) given by its cosine and sine samples. On success the new
    /// transform is exactly the old one multiplied by the roll matrix; a
    /// transform entry that would leave the representable range leaves the
    /// surface unchanged and is reported.
    pub fn rotate_roll(&mut self, cos_t: &Scalar, sin_t: &Scalar) -> (r: Result<(), JiveError>)
        requires
            old(self).wf(),
            cos_t.wf(),
            sin_t.wf(),
        ensures
            final(self).wf(),
            final(self).surface_flag == old(self).surface_flag,
            final(self).surface_coefficients == old(self).surface_coefficients,
            final(self).vmin == old(self).vmin,
            final(self).vmax == old(self).vmax,
            final(self).vstep == old(self).vstep,
            final(self).umin == old(self).umin,
            final(self).umax == old(self).umax,
            final(self).ustep == old(self).ustep,
            match r {
                Ok(_) => forall|k: int|
                    0 <= k < 9 ==> Some(final(self).surface_transformation@[k]) == #[trigger]
                    mat3_chain(
                        old(self).surface_transformation@,
                        roll_seq(cos_t@, sin_t@),
                        k,
                    ),
                Err(e) => e == JiveError::OutOfRange && final(self).surface_transformation == old(
                    self,
                ).surface_transformation && exists|k: int|
                    0 <= k < 9 && #[trigger] mat3_chain(
                        old(self).surface_transformation@,
                        roll_seq(cos_t@, sin_t@),
                        k,
                    ) is None,
            },
    {
        let roll_mat: Mat3x3 = Mat3x3::roll(cos_t, sin_t);
        proof {
            assert(roll_mat@ =~= roll_seq(cos_t@, sin_t@));
        }
        match self.surface_transformation.compose(&roll_mat) {
            Some(m) => {
                self.surface_transformation = m;
                Ok(())
            },
            None => Err(JiveError::OutOfRange),
        }
    }

    /// Enumerates the grid parameter pairs in row-major order: v sweeps
    /// its range in the outer position, u in the inner. Sample `k` is
    /// `(vMin + (k / nU)*vStep, uMin + (k mod nU)*uStep)`, and there are
    /// exactly `nV * nU` samples.
    pub fn sample_params(&self) -> (ps: Vec<(u64, u64)>)
        requires
            self.wf(),
        ensures
            ps@.len() == self.nv() * self.nu(),
            forall|k: int|
                0 <= k < ps@.len() ==> (#[trigger] ps@[k]).0 as int == self.vmin as int + (k
                    / self.nu()) * (self.vstep as int) && ps@[k].1 as int == self.umin as int + (k
                    % self.nu()) * (self.ustep as int),
    {
        proof {
            lemma_grid_bounds(*self);
        }
        let ghost nv = self.nv();
        let ghost nu = self.nu();
        let mut ps: Vec<(u64, u64)> = Vec::new();
        let mut v: u64 = self.vmin;
        let mut u: u64 = self.umin;
        let ghost mut iv: int = 0;
        let ghost mut iu: int = 0;
        let mut k: u64 = 0;
        let nvx: u64 = (self.vmax - self.vmin - 1) / self.vstep + 1;
        let nux: u64 = (self.umax - self.umin - 1) / self.ustep + 1;
        proof {
            assert(nvx as int == nv);
            assert(nux as int == nu);
            crate::rat::lemma_mul_pos(nvx as int, nux as int, 1024, 1024);
        }
        let total_exec: u64 = nvx * nux;
        let ghost total = nv * nu;
        while k < total_exec
            invariant
                self.wf(),
                nv == self.nv(),
                nu == self.nu(),
                total == nv * nu,
                1 <= nv <= 1024,
                1 <= nu <= 1024,
                1 <= total <= 1024 * 1024,
                total_exec as int == total,
                0 <= iv,
                0 <= iu < nu,
                k as int == iv * nu + iu,
                0 <= k as int <= total,
                v as int == self.vmin as int + iv * (self.vstep as int),
                u as int == self.umin as int + iu * (self.ustep as int),
                (k as int) < total ==> iv < nv,
                u < self.umax,
                (k as int) < total ==> v < self.vmax,
                ps@.len() == k as int,
                forall|k2: int|
                    0 <= k2 < ps@.len() ==> (#[trigger] ps@[k2]).0 as int == self.vmin as int + (k2
                        / nu) * (self.vstep as int) && ps@[k2].1 as int == self.umin as int + (k2
                        % nu) * (self.ustep as int),
            decreases total - k as int,
        {
            proof {
                lemma_fundamental_div_mod_converse_div(k as int, nu, iv, iu);
                lemma_fundamental_div_mod_converse_mod(k as int, nu, iv, iu);
            }
            ps.push((v, u));
            k = k + 1;
            u = u + self.ustep;
            proof {
                iu = iu + 1;
                assert(u as int == self.umin as int + iu * (self.ustep as int))
                    by (nonlinear_arith)
                    requires
                        u as int == self.umin as int + (iu - 1) * (self.ustep as int) + (
                        self.ustep as int),
                ;
            }
            if u >= self.umax {
                proof {
                    lemma_steps_complete(self.umin as int, self.umax as int, self.ustep as int, iu);
                    iu = 0;
                    iv = iv + 1;
                    assert(k as int == iv * nu) by (nonlinear_arith)
                        requires
                            k as int == (iv - 1) * nu + nu,
                    ;
                }
                u = self.umin;
                v = v + self.vstep;
                proof {
                    assert(v as int == self.vmin as int + iv * (self.vstep as int))
                        by (nonlinear_arith)
                        requires
                            v as int == self.vmin as int + (iv - 1) * (self.vstep as int) + (
                            self.vstep as int),
                    ;
                    if (k as int) < total {
                        assert(iv < nv) by (nonlinear_arith)
                            requires
                                (k as int) < total,
                                total == nv * nu,
                                k as int == iv * nu,
                                nu >= 1,
                        ;
                        lemma_step_lt(self.vmin as int, self.vmax as int, self.vstep as int, iv);
                    }
                }
            } else {
                proof {
                    lemma_steps_partial(self.umin as int, self.umax as int, self.ustep as int, iu);
                    if (k as int) < total {
                        assert(iv < nv) by (nonlinear_arith)
                            requires
                                (k as int) < total,
                                total == nv * nu,
                                k as int == iv * nu + iu,
                                0 <= iu < nu,
                                nu >= 1,
                        ;
                    }
                }
            }
        }
        ps
    }

    /// Evaluates the whole sampling grid, one point per parameter pair in
    /// row-major order, with `samples[k]` supplying the transcendental
    /// values for sample `k`. An error is reported exactly when the grid
    /// is nonempty and the family rejects the coefficients; it is then the
    /// family's error.
    pub fn surface_data(&self, samples: &Vec<TrigSample>) -> (r: Result<Vec<Vec3f>, JiveError>)
        requires
            self.wf(),
            samples@.len() == self.nv() * self.nu(),
            forall|k: int| 0 <= k < samples@.len() ==> trig_sample_ok((#[trigger] samples@[k])@),
        ensures
            match r {
                Ok(pts) => pts@.len() == samples@.len() && (samples@.len() == 0 || solve_err(
                    self.surface_flag,
                    coef_rats(self.surface_coefficients),
                ) is None) && forall|k: int|
                    0 <= k < pts@.len() ==> (#[trigger] pts@[k]).wf() && pts@[k]@ == point_of(
                        self.surface_flag,
                        self.vmin as int + (k / self.nu()) * (self.vstep as int),
                        self.umin as int + (k % self.nu()) * (self.ustep as int),
                        coef_rats(self.surface_coefficients),
                        samples@[k]@,
                    ),
                Err(e) => samples@.len() > 0 && solve_err(
                    self.surface_flag,
                    coef_rats(self.surface_coefficients),
                ) == Some(e),
            },
    {
        proof {
            lemma_grid_bounds(*self);
        }
        let ghost nv = self.nv();
        let ghost nu = self.nu();
        let mut pts: Vec<Vec3f> = Vec::new();
        let n: usize = samples.len();
        let mut v: u64 = self.vmin;
        let mut u: u64 = self.umin;
        let ghost mut iv: int = 0;
        let ghost mut iu: int = 0;
        let mut k: usize = 0;
        proof {
            assert(1 <= n <= 1024 * 1024) by (nonlinear_arith)
                requires
                    1 <= nv <= 1024,
                    1 <= nu <= 1024,
                    n == nv * nu,
            ;
        }
        while k < n
            invariant
                self.wf(),
                nv == self.nv(),
                nu == self.nu(),
                n == samples@.len(),
                n == nv * nu,
                1 <= nv <= 1024,
                1 <= nu <= 1024,
                forall|k2: int|
                    0 <= k2 < samples@.len() ==> trig_sample_ok((#[trigger] samples@[k2])@),
                0 <= iv,
                0 <= iu < nu,
                k as int == iv * nu + iu,
                0 <= k <= n,
                v as int == self.vmin as int + iv * (self.vstep as int),
                u as int == self.umin as int + iu * (self.ustep as int),
                k < n ==> iv < nv,
                u < self.umax,
                k < n ==> v < self.vmax,
                pts@.len() == k as int,
                forall|k2: int|
                    0 <= k2 < pts@.len() ==> (#[trigger] pts@[k2]).wf() && pts@[k2]@ == point_of(
                        self.surface_flag,
                        self.vmin as int + (k2 / nu) * (self.vstep as int),
                        self.umin as int + (k2 % nu) * (self.ustep as int),
                        coef_rats(self.surface_coefficients),
                        samples@[k2]@,
                    ),
                k > 0 ==> solve_err(self.surface_flag, coef_rats(self.surface_coefficients))
                    is None,
            decreases n - k,
        {
            proof {
                lemma_fundamental_div_mod_converse_div(k as int, nu, iv, iu);
                lemma_fundamental_div_mod_converse_mod(k as int, nu, iv, iu);
            }
            let p = match JiveSurface::solve(
                self.surface_flag,
                v,
                u,
                &self.surface_coefficients,
                &samples[k],
            ) {
                Ok(p) => p,
                Err(e) => {
                    return Err(e);
                },
            };
            pts.push(p);
            k = k + 1;
            u = u + self.ustep;
            proof {
                iu = iu + 1;
                assert(u as int == self.umin as int + iu * (self.ustep as int))
                    by (nonlinear_arith)
                    requires
                        u as int == self.umin as int + (iu - 1) * (self.ustep as int) + (
                        self.ustep as int),
                ;
            }
            if u >= self.umax {
                proof {
                    lemma_steps_complete(self.umin as int, self.umax as int, self.ustep as int, iu);
                    iu = 0;
                    iv = iv + 1;
                    assert(k as int == iv * nu) by (nonlinear_arith)
                        requires
                            k as int == (iv - 1) * nu + nu,
                    ;
                }
                u = self.umin;
                v = v + self.vstep;
                proof {
                    assert(v as int == self.vmin as int + iv * (self.vstep as int))
                        by (nonlinear_arith)
                        requires
                            v as int == self.vmin as int + (iv - 1) * (self.vstep as int) + (
                            self.vstep as int),
                    ;
                    if k < n {
                        assert(iv < nv) by (nonlinear_arith)
                            requires
                                (k as int) < nv * nu,
                                k as int == iv * nu,
                                nu >= 1,
                        ;
                        lemma_step_lt(self.vmin as int, self.vmax as int, self.vstep as int, iv);
                    }
                }
            } else {
                proof {
                    lemma_steps_partial(self.umin as int, self.umax as int, self.ustep as int, iu);
                    if k < n {
                        assert(iv < nv) by (nonlinear_arith)
                            requires
                                (k as int) < nv * nu,
                                k as int == iv * nu + iu,
                                0 <= iu < nu,
                                nu >= 1,
                        ;
                    }
                }
            }
        }
        Ok(pts)
    }
}

} // verus!

//! The transform-and-map stage: perspective projection and the mapping of
//! projected points to pixel coordinates.

use vstd::prelude::*;

use crate::mat::{apply3x3, apply4x4, apply4_rat, mat3_apply_chain, Mat3x3, Mat4x4};
use crate::rat::{
    opt_div, opt_mul, opt_sub, ov, qadd2, qdiv2, qdivn, qmul2, qsub2, rat_int, rat_neg, rat_one,
    rat_zero, Rat, Scalar,
};
use crate::vec3::Vec3f;

verus! {

/// Truncation toward zero, as a float-to-integer cast rounds.
pub open spec fn rat_trunc(r: Rat) -> int
    recommends
        r.d >= 1,
{
    if r.n >= 0 {
        r.n / r.d
    } else {
        -((-r.n) / r.d)
    }
}

/// Negation lifted over partiality; negation is exact.
pub open spec fn qneg2(a: Option<Rat>) -> Option<Rat> {
    match a {
        Some(x) => Some(rat_neg(x)),
        None => None,
    }
}

/// The render target: screen size, field of view in degrees, and the two
/// clipping planes. The field of view is carried for the caller that
/// computes the focal sample 1/tan(fov/2); the projection itself consumes
/// that sample.
pub struct ScreenData {
    pub screen_width: Scalar,
    pub screen_height: Scalar,
    pub field_of_view: Scalar,
    pub f_near: Scalar,
    pub f_far: Scalar,
}

impl ScreenData {
    pub open spec fn wf(self) -> bool {
        self.screen_width.wf() && self.screen_height.wf() && self.field_of_view.wf()
            && self.f_near.wf() && self.f_far.wf()
    }
}

/// Entry `k` of the perspective projection matrix: with aspect
/// `a = height/width`, focal factor `f` and depth factor
/// `q = far/(far - near)`, the matrix holds `a*f` at 0, `f` at 5, `q` at
/// 10, `1` at 11 and `-far*near/(far - near)` at 14; all other entries are
/// zero.
pub open spec fn proj_entry(w: Rat, h: Rat, near: Rat, far: Rat, focal: Rat, k: int) -> Option<
    Rat,
> {
    if k == 0 {
        qmul2(qdivn(h, w), Some(focal))
    } else if k == 5 {
        Some(focal)
    } else if k == 10 {
        qdiv2(Some(far), qsub2(Some(far), Some(near)))
    } else if k == 11 {
        Some(rat_one())
    } else if k == 14 {
        qdiv2(qneg2(qmul2(Some(far), Some(near))), qsub2(Some(far), Some(near)))
    } else {
        Some(rat_zero())
    }
}

impl ScreenData {
    /// Builds the perspective projection matrix from the viewport and the
    /// caller-supplied focal sample. `None` when a width of zero, equal
    /// clipping planes, or an entry outside the representable range leaves
    /// an entry undefined.
    pub fn projection_matrix(&self, focal: &Scalar) -> (r: Option<Mat4x4>)
        requires
            self.wf(),
            focal.wf(),
        ensures
            match r {
                Some(m) => m.wf() && forall|k: int|
                    0 <= k < 16 ==> Some(m@[k]) == #[trigger] proj_entry(
                        self.screen_width@,
                        self.screen_height@,
                        self.f_near@,
                        self.f_far@,
                        focal@,
                        k,
                    ),
                None => exists|k: int|
                    0 <= k < 16 && #[trigger] proj_entry(
                        self.screen_width@,
                        self.screen_height@,
                        self.f_near@,
                        self.f_far@,
                        focal@,
                        k,
                    ) is None,
            },
    {
        let af = opt_mul(
            opt_div(Some(self.screen_height), Some(self.screen_width)),
            Some(*focal),
        );
        let denom = opt_sub(Some(self.f_far), Some(self.f_near));
        let q = opt_div(Some(self.f_far), denom);
        let fn_prod = opt_mul(Some(self.f_far), Some(self.f_near));
        let neg_fn = match fn_prod {
            Some(x) => Some(x.neg()),
            None => None,
        };
        let back = opt_div(neg_fn, denom);
        match (af, q, back) {
            (Some(e0), Some(e10), Some(e14)) => {
                let z = Scalar::zero();
                let o = Scalar::one();
                let m = Mat4x4 {
                    e: [e0, z, z, z, z, *focal, z, z, z, z, e10, o, z, z, e14, z],
                };
                proof {
                    assert forall|k: int| 0 <= k < 16 implies Some(m@[k]) == #[trigger] proj_entry(
                        self.screen_width@,
                        self.screen_height@,
                        self.f_near@,
                        self.f_far@,
                        focal@,
                        k,
                    ) by {
                        if k == 0 {
                        } else if k == 5 {
                        } else if k == 10 {
                        } else if k == 11 {
                        } else if k == 14 {
                        }
                    }
                }
                Some(m)
            },
            _ => {
                proof {
                    assert(proj_entry(
                        self.screen_width@,
                        self.screen_height@,
                        self.f_near@,
                        self.f_far@,
                        focal@,
                        0,
                    ) is None || proj_entry(
                        self.screen_width@,
                        self.screen_height@,
                        self.f_near@,
                        self.f_far@,
                        focal@,
                        10,
                    ) is None || proj_entry(
                        self.screen_width@,
                        self.screen_height@,
                        self.f_near@,
                        self.f_far@,
                        focal@,
                        14,
                    ) is None);
                }
                None
            },
        }
    }
}

/// A drawable unit: a small fixed-size rectangle anchored at the computed
/// pixel coordinate.
#[derive(Clone, Copy, PartialEq, Eq, Structural, Debug)]
pub struct PixelRect {
    pub x: i64,
    pub y: i64,
    pub width: u32,
    pub height: u32,
}

/// Truncates a scalar toward zero, as the cast to a pixel coordinate does.
pub fn trunc_to_int(q: &Scalar) -> (p: i64)
    requires
        q.wf(),
    ensures
        p as int == rat_trunc(q@),
{
    let n: i64 = q.num();
    let d: i64 = q.den();
    proof {
        q.lemma_wf();
        let m: int = if n >= 0 {
            n as int
        } else {
            -(n as int)
        };
        vstd::arithmetic::div_mod::lemma_div_nonincreasing(m, d as int);
        vstd::arithmetic::div_mod::lemma_div_pos_is_pos(m, d as int);
    }
    if n >= 0 {
        ((n as u64) / (d as u64)) as i64
    } else {
        -((((-n) as u64) / (d as u64)) as i64)
    }
}

/// Where one raw point lands on the screen: the model transform, the
/// projection with its guarded divide, the shift of x and y from
/// [-1, 1]-centered space to [0, 2], the scaling by half the screen size,
/// and the truncation to pixel coordinates.
pub open spec fn project_rat(
    model: Seq<Rat>,
    proj: Seq<Rat>,
    v: (Rat, Rat, Rat),
    sw: Rat,
    sh: Rat,
) -> Option<(int, int)> {
    match (
        mat3_apply_chain(model, v, 0),
        mat3_apply_chain(model, v, 1),
        mat3_apply_chain(model, v, 2),
    ) {
        (Some(r0), Some(r1), Some(r2)) => match apply4_rat(proj, (r0, r1, r2)) {
            Some(p) => {
                let xs = qmul2(qadd2(Some(p.0), Some(rat_one())), qdivn(sw, rat_int(2)));
                let ys = qmul2(qadd2(Some(p.1), Some(rat_one())), qdivn(sh, rat_int(2)));
                match (xs, ys) {
                    (Some(xm), Some(ym)) => Some((rat_trunc(xm), rat_trunc(ym))),
                    _ => None,
                }
            },
            None => None,
        },
        _ => None,
    }
}

/// Maps one raw surface point to a 4×4-pixel rectangle: applies the
/// surface's model transform, the projection (with the divide skipped for
/// a zero homogeneous component), the translate and the scale. Color is
/// the business of the drawing collaborator, which reads the pre-transform
/// point; this function leaves that point untouched in the caller's hands.
pub fn project_vertex(
    vertex: &Vec3f,
    transform: &Mat3x3,
    projection: &Mat4x4,
    screen: &ScreenData,
) -> (r: Option<PixelRect>)
    requires
        vertex.wf(),
        transform.wf(),
        projection.wf(),
        screen.wf(),
    ensures
        match r {
            Some(px) => px.width == 4 && px.height == 4 && project_rat(
                transform@,
                projection@,
                vertex@,
                screen.screen_width@,
                screen.screen_height@,
            ) == Some((px.x as int, px.y as int)),
            None => project_rat(
                transform@,
                projection@,
                vertex@,
                screen.screen_width@,
                screen.screen_height@,
            ) is None,
        },
{
    let rotated = match apply3x3(vertex, transform) {
        Some(p) => p,
        None => {
            return None;
        },
    };
    let projected = match apply4x4(&rotated, projection) {
        Some(p) => p,
        None => {
            return None;
        },
    };
    let one = Scalar::one();
    let two = Scalar::from_int(2);
    let xs = opt_mul(
        opt_add_one(&projected, 0, &one),
        opt_div(Some(screen.screen_width), Some(two)),
    );
    let ys = opt_mul(
        opt_add_one(&projected, 1, &one),
        opt_div(Some(screen.screen_height), Some(two)),
    );
    match (xs, ys) {
        (Some(xm), Some(ym)) => Some(
            PixelRect { x: trunc_to_int(&xm), y: trunc_to_int(&ym), width: 4, height: 4 },
        ),
        _ => None,
    }
}

/// Adds one to the selected component of a projected point.
fn opt_add_one(p: &Vec3f, idx: usize, one: &Scalar) -> (r: Option<Scalar>)
    requires
        p.wf(),
        idx < 2,
        one.wf(),
        one@ == rat_one(),
    ensures
        crate::rat::owf(r),
        idx == 0 ==> ov(r) == qadd2(Some(p@.0), Some(rat_one())),
        idx == 1 ==> ov(r) == qadd2(Some(p@.1), Some(rat_one())),
{
    crate::rat::opt_add(Some(p.e[idx]), Some(*one))
}

} // verus!

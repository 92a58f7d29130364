//! 3×3 and 4×4 matrices and the transforms of the pipeline.
//!
//! A `Mat3x3` stores its entries row-major: entry `(i, j)` sits at `3*i + j`.
//! A `Mat4x4` is laid out so that a row vector multiplies it from the left,
//! as the projection step uses it: the transformed x-component reads column
//! 0 (entries 0, 4, 8, 12), and the homogeneous w-component column 3.

use vstd::prelude::*;

use crate::rat::{
    dot3, opt_add, opt_div, ov, owf, qadd2, qdivn, rat_neg, rat_one, rat_zero, rdot3, Rat, Scalar,
};
use crate::vec3::Vec3f;

verus! {

/// Entry `k` of the 3×3 identity.
pub open spec fn ident_rat(k: int) -> Rat {
    if k == 0 || k == 4 || k == 8 {
        rat_one()
    } else {
        rat_zero()
    }
}

/// Entry `k` of the roll matrix (rotation about the x-axis) built from a
/// cosine `c` and a sine `s`.
pub open spec fn roll_rat(c: Rat, s: Rat, k: int) -> Rat {
    if k == 0 {
        rat_one()
    } else if k == 4 || k == 8 {
        c
    } else if k == 5 {
        rat_neg(s)
    } else if k == 7 {
        s
    } else {
        rat_zero()
    }
}

/// The roll matrix as a sequence of entries.
pub open spec fn roll_seq(c: Rat, s: Rat) -> Seq<Rat> {
    Seq::new(9, |k: int| roll_rat(c, s, k))
}

/// Entry `k` of the product of two 3×3 matrices, as the checked kernel
/// computes it.
pub open spec fn mat3_chain(a: Seq<Rat>, b: Seq<Rat>, k: int) -> Option<Rat> {
    rdot3(
        a[3 * (k / 3)],
        a[3 * (k / 3) + 1],
        a[3 * (k / 3) + 2],
        b[k % 3],
        b[3 + k % 3],
        b[6 + k % 3],
    )
}

/// Component `i` of a 3×3 matrix applied to a vector.
pub open spec fn mat3_apply_chain(m: Seq<Rat>, v: (Rat, Rat, Rat), i: int) -> Option<Rat> {
    rdot3(m[3 * i], m[3 * i + 1], m[3 * i + 2], v.0, v.1, v.2)
}

/// Column `j` of a 4×4 matrix applied to a vector augmented with 1.
pub open spec fn col4_chain(m: Seq<Rat>, v: (Rat, Rat, Rat), j: int) -> Option<Rat> {
    qadd2(rdot3(v.0, v.1, v.2, m[j], m[4 + j], m[8 + j]), Some(m[12 + j]))
}

/// A 4×4 transform applied to a vector, including the guarded perspective
/// divide: when the homogeneous component is zero the divide is skipped and
/// the pre-divide coordinates kept.
pub open spec fn apply4_rat(m: Seq<Rat>, v: (Rat, Rat, Rat)) -> Option<(Rat, Rat, Rat)> {
    let xo = col4_chain(m, v, 0);
    let yo = col4_chain(m, v, 1);
    let zo = col4_chain(m, v, 2);
    let wo = col4_chain(m, v, 3);
    match (xo, yo, zo, wo) {
        (Some(x), Some(y), Some(z), Some(w)) => if w.n == 0 {
            Some((x, y, z))
        } else {
            match (qdivn(x, w), qdivn(y, w), qdivn(z, w)) {
                (Some(xd), Some(yd), Some(zd)) => Some((xd, yd, zd)),
                _ => None,
            }
        },
        _ => None,
    }
}

/// A row-major 3×3 matrix of exact rational scalars.
#[derive(Clone, Copy, PartialEq, Eq, Debug)]
pub struct Mat3x3 {
    pub e: [Scalar; 9],
}

impl View for Mat3x3 {
    type V = Seq<Rat>;

    open spec fn view(&self) -> Seq<Rat> {
        Seq::new(9, |i: int| self.e[i]@)
    }
}

impl Mat3x3 {
    /// All nine entries are well-formed scalars.
    pub open spec fn wf(self) -> bool {
        forall|k: int| 0 <= k < 9 ==> (#[trigger] self.e[k]).wf()
    }

    /// The all-zero matrix.
    pub fn new() -> (r: Mat3x3)
        ensures
            r.wf(),
            forall|k: int| 0 <= k < 9 ==> r@[k] == rat_zero(),
    {
        let z = Scalar::zero();
        Mat3x3 { e: [z, z, z, z, z, z, z, z, z] }
    }

    /// The identity matrix.
    pub fn identity() -> (r: Mat3x3)
        ensures
            r.wf(),
            forall|k: int| 0 <= k < 9 ==> r@[k] == ident_rat(k),
    {
        let z = Scalar::zero();
        let o = Scalar::one();
        Mat3x3 { e: [o, z, z, z, o, z, z, z, o] }
    }

    /// The rotation about the x-axis whose cosine and sine the caller
    /// supplies:
    /// `[[1, 0, 0], [0, c, -s], [0, s, c]]`.
    pub fn roll(c: &Scalar, s: &Scalar) -> (r: Mat3x3)
        requires
            c.wf(),
            s.wf(),
        ensures
            r.wf(),
            forall|k: int| 0 <= k < 9 ==> r@[k] == roll_rat(c@, s@, k),
    {
        let z = Scalar::zero();
        let o = Scalar::one();
        let ns = s.neg();
        Mat3x3 { e: [o, z, z, z, *c, ns, z, *s, *c] }
    }

    /// The matrix product `self * mat`; `None` when an entry leaves the
    /// representable range.
    #[verifier::rlimit(100)]
    pub fn compose(&self, mat: &Mat3x3) -> (r: Option<Mat3x3>)
        requires
            self.wf(),
            mat.wf(),
        ensures
            match r {
                Some(m) => m.wf() && forall|k: int|
                    0 <= k < 9 ==> Some(m@[k]) == #[trigger] mat3_chain(self@, mat@, k),
                None => exists|k: int| 0 <= k < 9 && #[trigger] mat3_chain(self@, mat@, k) is None,
            },
    {
        let t0 = dot3(&self.e[0], &self.e[1], &self.e[2], &mat.e[0], &mat.e[3], &mat.e[6]);
        let t1 = dot3(&self.e[0], &self.e[1], &self.e[2], &mat.e[1], &mat.e[4], &mat.e[7]);
        let t2 = dot3(&self.e[0], &self.e[1], &self.e[2], &mat.e[2], &mat.e[5], &mat.e[8]);
        let t3 = dot3(&self.e[3], &self.e[4], &self.e[5], &mat.e[0], &mat.e[3], &mat.e[6]);
        let t4 = dot3(&self.e[3], &self.e[4], &self.e[5], &mat.e[1], &mat.e[4], &mat.e[7]);
        let t5 = dot3(&self.e[3], &self.e[4], &self.e[5], &mat.e[2], &mat.e[5], &mat.e[8]);
        let t6 = dot3(&self.e[6], &self.e[7], &self.e[8], &mat.e[0], &mat.e[3], &mat.e[6]);
        let t7 = dot3(&self.e[6], &self.e[7], &self.e[8], &mat.e[1], &mat.e[4], &mat.e[7]);
        let t8 = dot3(&self.e[6], &self.e[7], &self.e[8], &mat.e[2], &mat.e[5], &mat.e[8]);
        match (t0, t1, t2, t3, t4, t5, t6, t7, t8) {
            (
                Some(q0),
                Some(q1),
                Some(q2),
                Some(q3),
                Some(q4),
                Some(q5),
                Some(q6),
                Some(q7),
                Some(q8),
            ) => {
                let m = Mat3x3 { e: [q0, q1, q2, q3, q4, q5, q6, q7, q8] };
                proof {
                    assert forall|k: int| 0 <= k < 9 implies Some(m@[k]) == #[trigger] mat3_chain(
                        self@,
                        mat@,
                        k,
                    ) by {
                        if k == 0 {
                        } else if k == 1 {
                        } else if k == 2 {
                        } else if k == 3 {
                        } else if k == 4 {
                        } else if k == 5 {
                        } else if k == 6 {
                        } else if k == 7 {
                        } else {
                            assert(k == 8);
                        }
                    }
                }
                Some(m)
            },
            _ => {
                proof {
                    assert(mat3_chain(self@, mat@, 0) is None || mat3_chain(self@, mat@, 1) is None
                        || mat3_chain(self@, mat@, 2) is None || mat3_chain(self@, mat@, 3) is None
                        || mat3_chain(self@, mat@, 4) is None || mat3_chain(self@, mat@, 5) is None
                        || mat3_chain(self@, mat@, 6) is None || mat3_chain(self@, mat@, 7) is None
                        || mat3_chain(self@, mat@, 8) is None);
                }
                None
            },
        }
    }
}

/// A 4×4 matrix of exact rational scalars, in the layout described at the
/// top of this module.
#[derive(Clone, Copy, PartialEq, Eq, Debug)]
pub struct Mat4x4 {
    pub e: [Scalar; 16],
}

impl View for Mat4x4 {
    type V = Seq<Rat>;

    open spec fn view(&self) -> Seq<Rat> {
        Seq::new(16, |i: int| self.e[i]@)
    }
}

impl Mat4x4 {
    /// All sixteen entries are well-formed scalars.
    pub open spec fn wf(self) -> bool {
        forall|k: int| 0 <= k < 16 ==> (#[trigger] self.e[k]).wf()
    }

    /// The all-zero matrix.
    pub fn new() -> (r: Mat4x4)
        ensures
            r.wf(),
            forall|k: int| 0 <= k < 16 ==> r@[k] == rat_zero(),
    {
        let z = Scalar::zero();
        Mat4x4 { e: [z, z, z, z, z, z, z, z, z, z, z, z, z, z, z, z] }
    }
}

/// Applies a 3×3 transform to a vector: `r = m * v`. `None` when a
/// component leaves the representable range.
pub fn apply3x3(v: &Vec3f, m: &Mat3x3) -> (r: Option<Vec3f>)
    requires
        v.wf(),
        m.wf(),
    ensures
        match r {
            Some(p) => p.wf() && Some(p@.0) == mat3_apply_chain(m@, v@, 0) && Some(p@.1)
                == mat3_apply_chain(m@, v@, 1) && Some(p@.2) == mat3_apply_chain(m@, v@, 2),
            None => mat3_apply_chain(m@, v@, 0) is None || mat3_apply_chain(m@, v@, 1) is None
                || mat3_apply_chain(m@, v@, 2) is None,
        },
{
    let t0 = dot3(&m.e[0], &m.e[1], &m.e[2], &v.e[0], &v.e[1], &v.e[2]);
    let t1 = dot3(&m.e[3], &m.e[4], &m.e[5], &v.e[0], &v.e[1], &v.e[2]);
    let t2 = dot3(&m.e[6], &m.e[7], &m.e[8], &v.e[0], &v.e[1], &v.e[2]);
    match (t0, t1, t2) {
        (Some(a), Some(b), Some(c)) => Some(Vec3f { e: [a, b, c] }),
        _ => None,
    }
}

/// Applies a 4×4 transform to a vector augmented with 1, dividing by the
/// homogeneous component unless that component is zero, in which case the
/// pre-divide coordinates are kept. `None` only when a component leaves the
/// representable range.
pub fn apply4x4(v: &Vec3f, m: &Mat4x4) -> (r: Option<Vec3f>)
    requires
        v.wf(),
        m.wf(),
    ensures
        match r {
            Some(p) => p.wf() && apply4_rat(m@, v@) == Some((p@.0, p@.1, p@.2)),
            None => apply4_rat(m@, v@) is None,
        },
{
    let t0 = opt_add(
        dot3(&v.e[0], &v.e[1], &v.e[2], &m.e[0], &m.e[4], &m.e[8]),
        Some(m.e[12]),
    );
    let t1 = opt_add(
        dot3(&v.e[0], &v.e[1], &v.e[2], &m.e[1], &m.e[5], &m.e[9]),
        Some(m.e[13]),
    );
    let t2 = opt_add(
        dot3(&v.e[0], &v.e[1], &v.e[2], &m.e[2], &m.e[6], &m.e[10]),
        Some(m.e[14]),
    );
    let t3 = opt_add(
        dot3(&v.e[0], &v.e[1], &v.e[2], &m.e[3], &m.e[7], &m.e[11]),
        Some(m.e[15]),
    );
    match (t0, t1, t2, t3) {
        (Some(x), Some(y), Some(z), Some(w)) => {
            if w.is_zero() {
                Some(Vec3f { e: [x, y, z] })
            } else {
                let xd = x.checked_div(&w);
                let yd = y.checked_div(&w);
                let zd = z.checked_div(&w);
                match (xd, yd, zd) {
                    (Some(a), Some(b), Some(c)) => Some(Vec3f { e: [a, b, c] }),
                    _ => None,
                }
            }
        },
        _ => None,
    }
}

} // verus!

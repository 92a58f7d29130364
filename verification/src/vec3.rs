//! The 3-component vector of the kernel.

use vstd::prelude::*;

use crate::error::JiveError;
use crate::rat::{dot3, opt_mul, opt_sub, ov, owf, qmul2, qsub2, rdot3, Rat, Scalar};

verus! {

/// A 3-component vector of exact rational scalars.
#[derive(Clone, Copy, PartialEq, Eq, Debug)]
pub struct Vec3f {
    pub e: [Scalar; 3],
}

impl View for Vec3f {
    type V = (Rat, Rat, Rat);

    open spec fn view(&self) -> (Rat, Rat, Rat) {
        (self.e[0]@, self.e[1]@, self.e[2]@)
    }
}

/// The cross product as the checked kernel computes it, one component of
/// the result per position.
pub open spec fn qcross(a: (Rat, Rat, Rat), b: (Rat, Rat, Rat)) -> (
    Option<Rat>,
    Option<Rat>,
    Option<Rat>,
) {
    (
        qsub2(qmul2(Some(a.1), Some(b.2)), qmul2(Some(a.2), Some(b.1))),
        qsub2(qmul2(Some(a.2), Some(b.0)), qmul2(Some(a.0), Some(b.2))),
        qsub2(qmul2(Some(a.0), Some(b.1)), qmul2(Some(a.1), Some(b.0))),
    )
}

impl Vec3f {
    /// All three components are well-formed scalars.
    pub open spec fn wf(self) -> bool {
        self.e[0].wf() && self.e[1].wf() && self.e[2].wf()
    }

    pub fn new(data: [Scalar; 3]) -> (r: Vec3f)
        ensures
            r@ == (data[0]@, data[1]@, data[2]@),
            data[0].wf() && data[1].wf() && data[2].wf() ==> r.wf(),
    {
        Vec3f { e: data }
    }

    pub fn from(a: Scalar, b: Scalar, c: Scalar) -> (r: Vec3f)
        ensures
            r@ == (a@, b@, c@),
            a.wf() && b.wf() && c.wf() ==> r.wf(),
    {
        Vec3f { e: [a, b, c] }
    }

    pub fn x(&self) -> (r: Scalar)
        ensures
            r@ == self@.0,
            self.wf() ==> r.wf(),
    {
        self.e[0]
    }

    pub fn y(&self) -> (r: Scalar)
        ensures
            r@ == self@.1,
            self.wf() ==> r.wf(),
    {
        self.e[1]
    }

    pub fn z(&self) -> (r: Scalar)
        ensures
            r@ == self@.2,
            self.wf() ==> r.wf(),
    {
        self.e[2]
    }

    pub fn xy(&self) -> (r: [Scalar; 2])
        ensures
            r[0]@ == self@.0,
            r[1]@ == self@.1,
    {
        [self.e[0], self.e[1]]
    }

    /// The squared length of the vector.
    pub fn magnitude_sq(&self) -> (r: Option<Scalar>)
        requires
            self.wf(),
        ensures
            owf(r),
            ov(r) == rdot3(self@.0, self@.1, self@.2, self@.0, self@.1, self@.2),
    {
        dot3(&self.e[0], &self.e[1], &self.e[2], &self.e[0], &self.e[1], &self.e[2])
    }

    /// Scales the vector by a caller-supplied reciprocal length. A
    /// zero-length vector is reported as degenerate rather than divided by
    /// zero; a result outside the representable range is reported as such.
    pub fn normalize(&self, inv_mag: &Scalar) -> (r: Result<Vec3f, JiveError>)
        requires
            self.wf(),
            inv_mag.wf(),
        ensures
            match r {
                Ok(v) => (self@.0.n != 0 || self@.1.n != 0 || self@.2.n != 0) && v.wf() && Some(
                    v@.0,
                ) == qmul2(Some(self@.0), Some(inv_mag@)) && Some(v@.1) == qmul2(
                    Some(self@.1),
                    Some(inv_mag@),
                ) && Some(v@.2) == qmul2(Some(self@.2), Some(inv_mag@)),
                Err(e) => (e == JiveError::DegenerateVector && self@.0.n == 0 && self@.1.n == 0
                    && self@.2.n == 0) || (e == JiveError::OutOfRange && (self@.0.n != 0
                    || self@.1.n != 0 || self@.2.n != 0) && (qmul2(Some(self@.0), Some(inv_mag@))
                    is None || qmul2(Some(self@.1), Some(inv_mag@)) is None || qmul2(
                    Some(self@.2),
                    Some(inv_mag@),
                ) is None)),
            },
    {
        if self.e[0].is_zero() && self.e[1].is_zero() && self.e[2].is_zero() {
            return Err(JiveError::DegenerateVector);
        }
        let c0 = opt_mul(Some(self.e[0]), Some(*inv_mag));
        let c1 = opt_mul(Some(self.e[1]), Some(*inv_mag));
        let c2 = opt_mul(Some(self.e[2]), Some(*inv_mag));
        match (c0, c1, c2) {
            (Some(a), Some(b), Some(c)) => Ok(Vec3f { e: [a, b, c] }),
            _ => Err(JiveError::OutOfRange),
        }
    }
}

/// The inner product of two vectors.
pub fn vec3f_dot(vec_a: &Vec3f, vec_b: &Vec3f) -> (r: Option<Scalar>)
    requires
        vec_a.wf(),
        vec_b.wf(),
    ensures
        owf(r),
        ov(r) == rdot3(vec_a@.0, vec_a@.1, vec_a@.2, vec_b@.0, vec_b@.1, vec_b@.2),
{
    dot3(&vec_a.e[0], &vec_a.e[1], &vec_a.e[2], &vec_b.e[0], &vec_b.e[1], &vec_b.e[2])
}

/// The cross product of two vectors.
pub fn vec3f_cross(vec_a: &Vec3f, vec_b: &Vec3f) -> (r: Option<Vec3f>)
    requires
        vec_a.wf(),
        vec_b.wf(),
    ensures
        match r {
            Some(v) => v.wf() && (Some(v@.0), Some(v@.1), Some(v@.2)) == qcross(vec_a@, vec_b@),
            None => qcross(vec_a@, vec_b@).0 is None || qcross(vec_a@, vec_b@).1 is None || qcross(
                vec_a@,
                vec_b@,
            ).2 is None,
        },
{
    let nx = opt_sub(
        opt_mul(Some(vec_a.e[1]), Some(vec_b.e[2])),
        opt_mul(Some(vec_a.e[2]), Some(vec_b.e[1])),
    );
    let ny = opt_sub(
        opt_mul(Some(vec_a.e[2]), Some(vec_b.e[0])),
        opt_mul(Some(vec_a.e[0]), Some(vec_b.e[2])),
    );
    let nz = opt_sub(
        opt_mul(Some(vec_a.e[0]), Some(vec_b.e[1])),
        opt_mul(Some(vec_a.e[1]), Some(vec_b.e[0])),
    );
    match (nx, ny, nz) {
        (Some(a), Some(b), Some(c)) => Some(Vec3f { e: [a, b, c] }),
        _ => None,
    }
}

} // verus!

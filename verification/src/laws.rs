//! The library-wide laws: properties that tie several operations together,
//! stated over the same spec functions the operations' own contracts use.

use vstd::prelude::*;

use crate::mat::{ident_rat, roll_rat, roll_seq};
use crate::rat::{
    lemma_add_congr, lemma_le_congr, lemma_mul_congr, lemma_norm, lemma_qnorm, lemma_rat_add_comm,
    lemma_rat_eq_trans, qadd2, qdivn, qmul2, qnorm, rat_add, rat_div, rat_dot3, rat_eq, rat_int,
    rat_le, rat_mul, rat_neg, rat_one, rat_sub, rat_wf, rat_zero, Rat,
};
use crate::screen::rat_trunc;
use crate::surface::{solve_rat, sphere_pt, JiveSurface, SurfaceKind, TrigRats};
use crate::error::JiveError;

verus! {

/// For every family, the grid produces exactly
/// `((vMax - vMin) / vStep) * ((uMax - uMin) / uStep)` points (integer
/// division over the half-open ranges): the step always divides the range,
/// so the count of `sample_params` and `surface_data` equals that product.
pub proof fn lemma_point_count(s: JiveSurface)
    requires
        s.wf(),
    ensures
        s.nv() * s.nu() == ((s.vmax - s.vmin) as int / (s.vstep as int)) * ((s.umax - s.umin) as int
            / (s.ustep as int)),
{
    match s.surface_flag {
        SurfaceKind::Sphere => {
            assert(s.nv() == 6 && s.nu() == 90);
            assert((s.vmax - s.vmin) as int / (s.vstep as int) == 6 && (s.umax - s.umin) as int
                / (s.ustep as int) == 90);
            assert(s.nv() * s.nu() == ((s.vmax - s.vmin) as int / (s.vstep as int)) * ((s.umax
                - s.umin) as int / (s.ustep as int)));
        },
        SurfaceKind::Ellipsoid => {
            assert(s.nv() == 18 && s.nu() == 90);
            assert((s.vmax - s.vmin) as int / (s.vstep as int) == 18 && (s.umax - s.umin) as int
                / (s.ustep as int) == 90);
            assert(s.nv() * s.nu() == ((s.vmax - s.vmin) as int / (s.vstep as int)) * ((s.umax
                - s.umin) as int / (s.ustep as int)));
        },
        SurfaceKind::Hyperboloid => {
            assert(s.nv() == 10 && s.nu() == 90);
            assert((s.vmax - s.vmin) as int / (s.vstep as int) == 10 && (s.umax - s.umin) as int
                / (s.ustep as int) == 90);
            assert(s.nv() * s.nu() == ((s.vmax - s.vmin) as int / (s.vstep as int)) * ((s.umax
                - s.umin) as int / (s.ustep as int)));
        },
        SurfaceKind::Paraboloid => {
            assert(s.nv() == 10 && s.nu() == 90);
            assert((s.vmax - s.vmin) as int / (s.vstep as int) == 10 && (s.umax - s.umin) as int
                / (s.ustep as int) == 90);
            assert(s.nv() * s.nu() == ((s.vmax - s.vmin) as int / (s.vstep as int)) * ((s.umax
                - s.umin) as int / (s.ustep as int)));
        },
        SurfaceKind::Plane => {
            assert(s.nv() == 10 && s.nu() == 10);
            assert((s.vmax - s.vmin) as int / (s.vstep as int) == 10 && (s.umax - s.umin) as int
                / (s.ustep as int) == 10);
            assert(s.nv() * s.nu() == ((s.vmax - s.vmin) as int / (s.vstep as int)) * ((s.umax
                - s.umin) as int / (s.ustep as int)));
        },
        SurfaceKind::Cone => {
            assert(s.nv() == 10 && s.nu() == 360);
            assert((s.vmax - s.vmin) as int / (s.vstep as int) == 10 && (s.umax - s.umin) as int
                / (s.ustep as int) == 360);
            assert(s.nv() * s.nu() == ((s.vmax - s.vmin) as int / (s.vstep as int)) * ((s.umax
                - s.umin) as int / (s.ustep as int)));
        },
    }
}

/// Entry `(i, j)` of `M * M^T` for the roll matrix `M`: the dot product of
/// rows `i` and `j`.
pub open spec fn roll_mmt(c: Rat, s: Rat, i: int, j: int) -> Rat {
    rat_dot3(
        roll_rat(c, s, 3 * i),
        roll_rat(c, s, 3 * i + 1),
        roll_rat(c, s, 3 * i + 2),
        roll_rat(c, s, 3 * j),
        roll_rat(c, s, 3 * j + 1),
        roll_rat(c, s, 3 * j + 2),
    )
}

/// A roll matrix built from a unit cosine/sine pair is orthogonal:
/// `M * M^T` equals the identity, entry by entry, as rational numbers.
pub proof fn lemma_roll_orthogonal(c: Rat, s: Rat)
    requires
        rat_wf(c),
        rat_wf(s),
        rat_eq(rat_add(rat_mul(c, c), rat_mul(s, s)), rat_one()),
    ensures
        forall|i: int, j: int|
            0 <= i < 3 && 0 <= j < 3 ==> rat_eq(#[trigger] roll_mmt(c, s, i, j), ident_rat(3 * i + j)),
{
    assert forall|i: int, j: int| 0 <= i < 3 && 0 <= j < 3 implies rat_eq(
        #[trigger] roll_mmt(c, s, i, j),
        ident_rat(3 * i + j),
    ) by {
        if i == 1 && j == 1 {
            assert(roll_mmt(c, s, 1, 1) == rat_add(rat_mul(c, c), rat_mul(s, s)))
                by (nonlinear_arith);
        } else if i == 2 && j == 2 {
            assert(roll_mmt(c, s, 2, 2) == rat_add(rat_mul(s, s), rat_mul(c, c)))
                by (nonlinear_arith);
            lemma_rat_add_comm(rat_mul(s, s), rat_mul(c, c));
        } else if i == 0 && j == 0 {
            assert(rat_eq(roll_mmt(c, s, 0, 0), rat_one())) by (nonlinear_arith);
        } else {
            assert(roll_mmt(c, s, i, j).n == 0 && ident_rat(3 * i + j).n == 0)
                by (nonlinear_arith)
                requires
                    0 <= i < 3,
                    0 <= j < 3,
                    i != j,
            ;
        }
    }
}

/// Entry `k` of the exact product of two 3×3 matrices.
pub open spec fn mat3_ideal(a: Seq<Rat>, b: Seq<Rat>, k: int) -> Rat {
    rat_dot3(
        a[3 * (k / 3)],
        a[3 * (k / 3) + 1],
        a[3 * (k / 3) + 2],
        b[k % 3],
        b[3 + k % 3],
        b[6 + k % 3],
    )
}

/// The cosine of the summed angle, by the addition formula.
pub open spec fn cos_sum(c1: Rat, s1: Rat, c2: Rat, s2: Rat) -> Rat {
    rat_sub(rat_mul(c1, c2), rat_mul(s1, s2))
}

/// The sine of the summed angle, by the addition formula.
pub open spec fn sin_sum(c1: Rat, s1: Rat, c2: Rat, s2: Rat) -> Rat {
    rat_add(rat_mul(s1, c2), rat_mul(c1, s2))
}

/// Composing the roll by one angle with the roll by another equals the
/// roll by the angle sum, entry by entry as rational numbers: rotations
/// about the same axis commute additively.
pub proof fn lemma_roll_addition(c1: Rat, s1: Rat, c2: Rat, s2: Rat)
    requires
        rat_wf(c1),
        rat_wf(s1),
        rat_wf(c2),
        rat_wf(s2),
    ensures
        forall|k: int|
            0 <= k < 9 ==> rat_eq(
                #[trigger] mat3_ideal(roll_seq(c1, s1), roll_seq(c2, s2), k),
                roll_rat(cos_sum(c1, s1, c2, s2), sin_sum(c1, s1, c2, s2), k),
            ),
{
    assert forall|k: int| 0 <= k < 9 implies rat_eq(
        #[trigger] mat3_ideal(roll_seq(c1, s1), roll_seq(c2, s2), k),
        roll_rat(cos_sum(c1, s1, c2, s2), sin_sum(c1, s1, c2, s2), k),
    ) by {
        let a = roll_seq(c1, s1);
        let b = roll_seq(c2, s2);
        assert(mat3_ideal(a, b, k) == rat_dot3(
            roll_rat(c1, s1, 3 * (k / 3)),
            roll_rat(c1, s1, 3 * (k / 3) + 1),
            roll_rat(c1, s1, 3 * (k / 3) + 2),
            roll_rat(c2, s2, k % 3),
            roll_rat(c2, s2, 3 + k % 3),
            roll_rat(c2, s2, 6 + k % 3),
        ));
        if k == 4 {
            assert(rat_eq(
                rat_dot3(
                    roll_rat(c1, s1, 3),
                    roll_rat(c1, s1, 4),
                    roll_rat(c1, s1, 5),
                    roll_rat(c2, s2, 1),
                    roll_rat(c2, s2, 4),
                    roll_rat(c2, s2, 7),
                ),
                cos_sum(c1, s1, c2, s2),
            )) by (nonlinear_arith)
                requires
                    c1.d >= 1,
                    s1.d >= 1,
                    c2.d >= 1,
                    s2.d >= 1,
            ;
        } else if k == 5 {
            assert(rat_eq(
                rat_dot3(
                    roll_rat(c1, s1, 3),
                    roll_rat(c1, s1, 4),
                    roll_rat(c1, s1, 5),
                    roll_rat(c2, s2, 2),
                    roll_rat(c2, s2, 5),
                    roll_rat(c2, s2, 8),
                ),
                rat_neg(sin_sum(c1, s1, c2, s2)),
            )) by (nonlinear_arith)
                requires
                    c1.d >= 1,
                    s1.d >= 1,
                    c2.d >= 1,
                    s2.d >= 1,
            ;
        } else if k == 7 {
            assert(rat_eq(
                rat_dot3(
                    roll_rat(c1, s1, 6),
                    roll_rat(c1, s1, 7),
                    roll_rat(c1, s1, 8),
                    roll_rat(c2, s2, 1),
                    roll_rat(c2, s2, 4),
                    roll_rat(c2, s2, 7),
                ),
                sin_sum(c1, s1, c2, s2),
            )) by (nonlinear_arith)
                requires
                    c1.d >= 1,
                    s1.d >= 1,
                    c2.d >= 1,
                    s2.d >= 1,
            ;
        } else if k == 8 {
            assert(rat_eq(
                rat_dot3(
                    roll_rat(c1, s1, 6),
                    roll_rat(c1, s1, 7),
                    roll_rat(c1, s1, 8),
                    roll_rat(c2, s2, 2),
                    roll_rat(c2, s2, 5),
                    roll_rat(c2, s2, 8),
                ),
                cos_sum(c1, s1, c2, s2),
            )) by (nonlinear_arith)
                requires
                    c1.d >= 1,
                    s1.d >= 1,
                    c2.d >= 1,
                    s2.d >= 1,
            ;
        } else if k == 0 {
            assert(rat_eq(mat3_ideal(a, b, 0), rat_one())) by (nonlinear_arith)
                requires
                    mat3_ideal(a, b, 0) == rat_dot3(
                        roll_rat(c1, s1, 0),
                        roll_rat(c1, s1, 1),
                        roll_rat(c1, s1, 2),
                        roll_rat(c2, s2, 0),
                        roll_rat(c2, s2, 3),
                        roll_rat(c2, s2, 6),
                    ),
                    c1.d >= 1,
                    s1.d >= 1,
                    c2.d >= 1,
                    s2.d >= 1,
            ;
        } else {
            assert(mat3_ideal(a, b, k).n == 0 && roll_rat(
                cos_sum(c1, s1, c2, s2),
                sin_sum(c1, s1, c2, s2),
                k,
            ).n == 0) by (nonlinear_arith)
                requires
                    0 <= k < 9,
                    k != 0 && k != 4 && k != 5 && k != 7 && k != 8,
                    mat3_ideal(a, b, k) == rat_dot3(
                        roll_rat(c1, s1, 3 * (k / 3)),
                        roll_rat(c1, s1, 3 * (k / 3) + 1),
                        roll_rat(c1, s1, 3 * (k / 3) + 2),
                        roll_rat(c2, s2, k % 3),
                        roll_rat(c2, s2, 3 + k % 3),
                        roll_rat(c2, s2, 6 + k % 3),
                    ),
            ;
        }
    }
}

/// A dot product of well-formed fractions is well-formed.
proof fn lemma_dot3_wf(x0: Rat, x1: Rat, x2: Rat, y0: Rat, y1: Rat, y2: Rat)
    by (nonlinear_arith)
    requires
        rat_wf(x0),
        rat_wf(x1),
        rat_wf(x2),
        rat_wf(y0),
        rat_wf(y1),
        rat_wf(y2),
    ensures
        rat_wf(rat_dot3(x0, x1, x2, y0, y1, y2)),
{
}

/// A dot product respects rational equality of the left entries.
proof fn lemma_dot3_congr(
    a0: Rat,
    a1: Rat,
    a2: Rat,
    b0: Rat,
    b1: Rat,
    b2: Rat,
    v0: Rat,
    v1: Rat,
    v2: Rat,
)
    requires
        rat_wf(a0),
        rat_wf(a1),
        rat_wf(a2),
        rat_wf(b0),
        rat_wf(b1),
        rat_wf(b2),
        rat_wf(v0),
        rat_wf(v1),
        rat_wf(v2),
        rat_eq(a0, b0),
        rat_eq(a1, b1),
        rat_eq(a2, b2),
    ensures
        rat_eq(rat_dot3(a0, a1, a2, v0, v1, v2), rat_dot3(b0, b1, b2, v0, v1, v2)),
{
    lemma_mul_congr(a0, b0, v0, v0);
    lemma_mul_congr(a1, b1, v1, v1);
    lemma_mul_congr(a2, b2, v2, v2);
    assert(rat_wf(rat_mul(b0, v0)) && rat_wf(rat_mul(b1, v1)) && rat_wf(rat_mul(b2, v2)))
        by (nonlinear_arith)
        requires
            b0.d >= 1,
            b1.d >= 1,
            b2.d >= 1,
            v0.d >= 1,
            v1.d >= 1,
            v2.d >= 1,
    ;
    lemma_add_congr(rat_mul(a0, v0), rat_mul(b0, v0), rat_mul(a1, v1), rat_mul(b1, v1));
    assert(rat_wf(rat_add(rat_mul(b0, v0), rat_mul(b1, v1)))) by (nonlinear_arith)
        requires
            b0.d >= 1,
            b1.d >= 1,
            v0.d >= 1,
            v1.d >= 1,
    ;
    lemma_add_congr(
        rat_add(rat_mul(a0, v0), rat_mul(a1, v1)),
        rat_add(rat_mul(b0, v0), rat_mul(b1, v1)),
        rat_mul(a2, v2),
        rat_mul(b2, v2),
    );
}

/// Composing roll(θ1) with roll(θ2) and applying the result to a vector
/// equals applying roll(θ1 + θ2) directly to the same vector, component
/// by component as rational numbers.
pub proof fn lemma_roll_addition_applied(
    c1: Rat,
    s1: Rat,
    c2: Rat,
    s2: Rat,
    v0: Rat,
    v1: Rat,
    v2: Rat,
)
    requires
        rat_wf(c1),
        rat_wf(s1),
        rat_wf(c2),
        rat_wf(s2),
        rat_wf(v0),
        rat_wf(v1),
        rat_wf(v2),
    ensures
        forall|i: int|
            0 <= i < 3 ==> rat_eq(
                rat_dot3(
                    #[trigger] mat3_ideal(roll_seq(c1, s1), roll_seq(c2, s2), 3 * i),
                    mat3_ideal(roll_seq(c1, s1), roll_seq(c2, s2), 3 * i + 1),
                    mat3_ideal(roll_seq(c1, s1), roll_seq(c2, s2), 3 * i + 2),
                    v0,
                    v1,
                    v2,
                ),
                rat_dot3(
                    roll_rat(cos_sum(c1, s1, c2, s2), sin_sum(c1, s1, c2, s2), 3 * i),
                    roll_rat(cos_sum(c1, s1, c2, s2), sin_sum(c1, s1, c2, s2), 3 * i + 1),
                    roll_rat(cos_sum(c1, s1, c2, s2), sin_sum(c1, s1, c2, s2), 3 * i + 2),
                    v0,
                    v1,
                    v2,
                ),
            ),
{
    lemma_roll_addition(c1, s1, c2, s2);
    let a = roll_seq(c1, s1);
    let b = roll_seq(c2, s2);
    let ca = cos_sum(c1, s1, c2, s2);
    let sa = sin_sum(c1, s1, c2, s2);
    assert(rat_wf(ca) && rat_wf(sa)) by (nonlinear_arith)
        requires
            ca == rat_sub(rat_mul(c1, c2), rat_mul(s1, s2)),
            sa == rat_add(rat_mul(s1, c2), rat_mul(c1, s2)),
            c1.d >= 1,
            s1.d >= 1,
            c2.d >= 1,
            s2.d >= 1,
    ;
    assert forall|k: int| 0 <= k < 9 implies rat_wf(#[trigger] mat3_ideal(a, b, k)) && rat_wf(
        roll_rat(ca, sa, k),
    ) by {
        lemma_dot3_wf(
            a[3 * (k / 3)],
            a[3 * (k / 3) + 1],
            a[3 * (k / 3) + 2],
            b[k % 3],
            b[3 + k % 3],
            b[6 + k % 3],
        );
    }
    assert forall|i: int| 0 <= i < 3 implies rat_eq(
        rat_dot3(
            #[trigger] mat3_ideal(a, b, 3 * i),
            mat3_ideal(a, b, 3 * i + 1),
            mat3_ideal(a, b, 3 * i + 2),
            v0,
            v1,
            v2,
        ),
        rat_dot3(
            roll_rat(ca, sa, 3 * i),
            roll_rat(ca, sa, 3 * i + 1),
            roll_rat(ca, sa, 3 * i + 2),
            v0,
            v1,
            v2,
        ),
    ) by {
        lemma_dot3_congr(
            mat3_ideal(a, b, 3 * i),
            mat3_ideal(a, b, 3 * i + 1),
            mat3_ideal(a, b, 3 * i + 2),
            roll_rat(ca, sa, 3 * i),
            roll_rat(ca, sa, 3 * i + 1),
            roll_rat(ca, sa, 3 * i + 2),
            v0,
            v1,
            v2,
        );
    }
}

/// Multiplying a unit-sum pair through a common factor and adding gives
/// back the factor: `t*p + t*q` equals `t` when `p + q` equals 1.
#[verifier::rlimit(100)]
proof fn lemma_unit_cross(p: Rat, q: Rat, t: Rat)
    requires
        rat_wf(p),
        rat_wf(q),
        rat_wf(t),
        rat_eq(rat_add(p, q), rat_one()),
    ensures
        rat_eq(rat_add(rat_mul(t, p), rat_mul(t, q)), t),
{
    vstd::arithmetic::mul::lemma_mul_is_distributive_add_other_way(
        t.d,
        (t.n * p.n) * (t.d * q.d),
        (t.n * q.n) * (t.d * p.d),
    );
    assert(((t.n * p.n) * (t.d * q.d)) * t.d == (t.n * (t.d * t.d)) * (p.n * q.d))
        by (nonlinear_arith);
    assert(((t.n * q.n) * (t.d * p.d)) * t.d == (t.n * (t.d * t.d)) * (q.n * p.d))
        by (nonlinear_arith);
    vstd::arithmetic::mul::lemma_mul_is_distributive_add(
        t.n * (t.d * t.d),
        p.n * q.d,
        q.n * p.d,
    );
    assert(t.n * ((t.d * p.d) * (t.d * q.d)) == (t.n * (t.d * t.d)) * (p.d * q.d))
        by (nonlinear_arith);
    assert(p.n * q.d + q.n * p.d == p.d * q.d);
}

/// Every sphere point lies at distance `(1/20) * root / 2` from the
/// origin: its squared distance equals `(root/40)^2` exactly, whenever the
/// supplied cosine/sine pairs lie on the unit circle.
pub proof fn lemma_sphere_radius(t: TrigRats)
    requires
        rat_wf(t.cv),
        rat_wf(t.sv),
        rat_wf(t.cu),
        rat_wf(t.su),
        rat_wf(t.root),
        rat_eq(rat_add(rat_mul(t.cu, t.cu), rat_mul(t.su, t.su)), rat_one()),
        rat_eq(rat_add(rat_mul(t.cv, t.cv), rat_mul(t.sv, t.sv)), rat_one()),
    ensures
        ({
            let (x, y, z) = sphere_pt(t);
            rat_eq(
                rat_dot3(x, y, z, x, y, z),
                rat_mul(
                    Rat { n: t.root.n, d: 40 * t.root.d },
                    Rat { n: t.root.n, d: 40 * t.root.d },
                ),
            )
        }),
{
    let ds = Rat { n: t.root.n, d: 40 * t.root.d };
    let rawx = Rat { n: t.root.n * t.cu.n * t.sv.n, d: 40 * t.root.d * t.cu.d * t.sv.d };
    let rawy = Rat { n: t.root.n * t.su.n * t.sv.n, d: 40 * t.root.d * t.su.d * t.sv.d };
    let rawz = Rat { n: t.root.n * t.cv.n, d: 40 * t.root.d * t.cv.d };
    let ds2 = rat_mul(ds, ds);
    let svsv = rat_mul(t.sv, t.sv);
    let cvcv = rat_mul(t.cv, t.cv);
    let cucu = rat_mul(t.cu, t.cu);
    let susu = rat_mul(t.su, t.su);
    let tt = rat_mul(ds2, svsv);
    assert(rat_wf(rawx) && rat_wf(rawy) && rat_wf(rawz) && rat_wf(ds) && rat_wf(ds2) && rat_wf(svsv)
        && rat_wf(cvcv) && rat_wf(cucu) && rat_wf(susu) && rat_wf(tt) && rat_wf(rat_mul(ds2, cvcv))
        && rat_wf(rat_mul(tt, cucu)) && rat_wf(rat_mul(tt, susu))) by (nonlinear_arith)
        requires
            rawx == (Rat { n: t.root.n * t.cu.n * t.sv.n, d: 40 * t.root.d * t.cu.d * t.sv.d }),
            rawy == (Rat { n: t.root.n * t.su.n * t.sv.n, d: 40 * t.root.d * t.su.d * t.sv.d }),
            rawz == (Rat { n: t.root.n * t.cv.n, d: 40 * t.root.d * t.cv.d }),
            ds == (Rat { n: t.root.n, d: 40 * t.root.d }),
            ds2 == rat_mul(ds, ds),
            svsv == rat_mul(t.sv, t.sv),
            cvcv == rat_mul(t.cv, t.cv),
            cucu == rat_mul(t.cu, t.cu),
            susu == rat_mul(t.su, t.su),
            tt == rat_mul(ds2, svsv),
            t.root.d >= 1,
            t.cv.d >= 1,
            t.sv.d >= 1,
            t.cu.d >= 1,
            t.su.d >= 1,
    ;
    let x = sphere_pt(t).0;
    let y = sphere_pt(t).1;
    let z = sphere_pt(t).2;
    lemma_norm(rawx);
    lemma_norm(rawy);
    lemma_norm(rawz);
    lemma_mul_congr(x, rawx, x, rawx);
    lemma_mul_congr(y, rawy, y, rawy);
    lemma_mul_congr(z, rawz, z, rawz);
    assert((t.root.n * t.cu.n * t.sv.n) * (t.root.n * t.cu.n * t.sv.n) == ((t.root.n * t.root.n) * (
    t.sv.n * t.sv.n)) * (t.cu.n * t.cu.n)) by (nonlinear_arith);
    assert((40 * t.root.d * t.cu.d * t.sv.d) * (40 * t.root.d * t.cu.d * t.sv.d) == (((40
        * t.root.d) * (40 * t.root.d)) * (t.sv.d * t.sv.d)) * (t.cu.d * t.cu.d))
        by (nonlinear_arith);
    assert((t.root.n * t.su.n * t.sv.n) * (t.root.n * t.su.n * t.sv.n) == ((t.root.n * t.root.n) * (
    t.sv.n * t.sv.n)) * (t.su.n * t.su.n)) by (nonlinear_arith);
    assert((40 * t.root.d * t.su.d * t.sv.d) * (40 * t.root.d * t.su.d * t.sv.d) == (((40
        * t.root.d) * (40 * t.root.d)) * (t.sv.d * t.sv.d)) * (t.su.d * t.su.d))
        by (nonlinear_arith);
    assert((t.root.n * t.cv.n) * (t.root.n * t.cv.n) == (t.root.n * t.root.n) * (t.cv.n * t.cv.n))
        by (nonlinear_arith);
    assert((40 * t.root.d * t.cv.d) * (40 * t.root.d * t.cv.d) == ((40 * t.root.d) * (40
        * t.root.d)) * (t.cv.d * t.cv.d)) by (nonlinear_arith);
    assert(rat_mul(rawx, rawx) == rat_mul(tt, cucu));
    assert(rat_mul(rawy, rawy) == rat_mul(tt, susu));
    assert(rat_mul(rawz, rawz) == rat_mul(ds2, cvcv));
    lemma_unit_cross(cucu, susu, tt);
    let sxy = rat_add(rat_mul(x, x), rat_mul(y, y));
    let mid = rat_add(rat_mul(tt, cucu), rat_mul(tt, susu));
    assert(rat_wf(mid)) by (nonlinear_arith)
        requires
            mid == rat_add(rat_mul(tt, cucu), rat_mul(tt, susu)),
            tt.d >= 1,
            cucu.d >= 1,
            susu.d >= 1,
    ;
    lemma_add_congr(rat_mul(x, x), rat_mul(rawx, rawx), rat_mul(y, y), rat_mul(rawy, rawy));
    lemma_rat_eq_trans(sxy, mid, tt);
    lemma_add_congr(sxy, tt, rat_mul(z, z), rat_mul(ds2, cvcv));
    lemma_rat_add_comm(svsv, cvcv);
    lemma_unit_cross(svsv, cvcv, ds2);
    let mid2 = rat_add(tt, rat_mul(ds2, cvcv));
    assert(rat_wf(mid2)) by (nonlinear_arith)
        requires
            mid2 == rat_add(tt, rat_mul(ds2, cvcv)),
            tt.d >= 1,
            ds2.d >= 1,
            cvcv.d >= 1,
    ;
    lemma_rat_eq_trans(rat_dot3(x, y, z, x, y, z), mid2, ds2);
}
/// transcendental samples twice yields identical output: the evaluator is
/// a pure function of its arguments.
pub proof fn lemma_solve_deterministic(
    kind: SurfaceKind,
    v: int,
    u: int,
    coef: Seq<Rat>,
    t: TrigRats,
    r1: Result<(Rat, Rat, Rat), JiveError>,
    r2: Result<(Rat, Rat, Rat), JiveError>,
)
    requires
        r1 == solve_rat(kind, v, u, coef, t),
        r2 == solve_rat(kind, v, u, coef, t),
    ensures
        r1 == r2,
{
}

/// A projected coordinate within the canonical [-1, 1] range lands inside
/// the viewport after the translate and scale: whenever the mapped value
/// is representable, its pixel coordinate lies between 0 and the screen
/// size.
pub proof fn lemma_pixel_in_viewport(x: Rat, w: int)
    requires
        rat_wf(x),
        rat_le(rat_neg(rat_one()), x),
        rat_le(x, rat_one()),
        0 <= w,
    ensures
        match qmul2(qadd2(Some(x), Some(rat_one())), qdivn(rat_int(w), rat_int(2))) {
            Some(m) => 0 <= rat_trunc(m) <= w,
            None => true,
        },
{
    let y = rat_add(x, rat_one());
    let res = qmul2(qadd2(Some(x), Some(rat_one())), qdivn(rat_int(w), rat_int(2)));
    if res is Some {
        let m = res->Some_0;
        let yn = qnorm(y)->Some_0;
        lemma_qnorm(y);
        let half = Rat { n: w, d: 2 };
        assert(rat_div(rat_int(w), rat_int(2)) == half);
        let hn = qnorm(half)->Some_0;
        lemma_qnorm(half);
        lemma_mul_congr(yn, y, hn, half);
        lemma_qnorm(rat_mul(yn, hn));
        let ideal = rat_mul(y, half);
        assert(rat_wf(ideal)) by (nonlinear_arith)
            requires
                ideal == rat_mul(y, half),
                y.d >= 1,
                half.d == 2,
        ;
        lemma_rat_eq_trans(m, rat_mul(yn, hn), ideal);
        // 0 <= y <= 2, so 0 <= y * w/2 <= w.
        assert(y.n >= 0 && y.n <= 2 * y.d);
        assert(rat_le(rat_zero(), ideal) && rat_le(ideal, rat_int(w))) by (nonlinear_arith)
            requires
                ideal == rat_mul(y, half),
                half == (Rat { n: w, d: 2 }),
                y.n >= 0,
                y.n <= 2 * y.d,
                y.d >= 1,
                w >= 0,
        ;
        assert(rat_eq(rat_zero(), rat_zero()) && rat_eq(rat_int(w), rat_int(w)));
        lemma_le_congr(rat_zero(), rat_zero(), ideal, m);
        lemma_le_congr(ideal, m, rat_int(w), rat_int(w));
        assert(m.n >= 0);
        assert(m.n <= w * m.d);
        vstd::arithmetic::div_mod::lemma_div_pos_is_pos(m.n, m.d);
        vstd::arithmetic::div_mod::lemma_div_is_ordered(m.n, w * m.d, m.d);
        vstd::arithmetic::div_mod::lemma_fundamental_div_mod_converse_div(w * m.d, m.d, w, 0);
    }
}

} // verus!

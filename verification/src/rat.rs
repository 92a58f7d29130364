//! Exact rational scalars.
//!
//! Every scalar the pipeline computes with is a fraction of two `i64` values
//! kept in lowest terms by a verified gcd reduction. The mathematical model is
//! `Rat`, a fraction of unbounded integers; an executable `Scalar` denotes the
//! `Rat` given by its view. Operations that can leave the representable range
//! return `None`; operations whose result provably fits are total.

use vstd::prelude::*;
use vstd::arithmetic::div_mod::{
    lemma_add_mod_noop, lemma_div_nonincreasing, lemma_div_pos_is_pos, lemma_fundamental_div_mod,
    lemma_mod_multiples_basic, lemma_mod_self_0, lemma_small_mod,
};

verus! {

/// Largest magnitude a stored numerator or denominator may take (2^62).
pub const MAXQ: i64 = 0x4000_0000_0000_0000;

/// Bound on the raw numerator and denominator handed to `reduce128` (2^125).
pub const MAXN128: i128 = 42535295865117307932921825928971026432;

/// Mathematical value of a scalar: the fraction `n / d` over unbounded
/// integers. Well-formed fractions keep `d >= 1`.
pub ghost struct Rat {
    pub n: int,
    pub d: int,
}

pub open spec fn rat_wf(r: Rat) -> bool {
    r.d >= 1
}

/// The two fractions denote the same rational number.
pub open spec fn rat_eq(a: Rat, b: Rat) -> bool {
    a.n * b.d == b.n * a.d
}

pub open spec fn rat_int(i: int) -> Rat {
    Rat { n: i, d: 1 }
}

pub open spec fn rat_zero() -> Rat {
    rat_int(0)
}

pub open spec fn rat_one() -> Rat {
    rat_int(1)
}

pub open spec fn rat_add(a: Rat, b: Rat) -> Rat {
    Rat { n: a.n * b.d + b.n * a.d, d: a.d * b.d }
}

pub open spec fn rat_neg(a: Rat) -> Rat {
    Rat { n: -a.n, d: a.d }
}

pub open spec fn rat_sub(a: Rat, b: Rat) -> Rat {
    rat_add(a, rat_neg(b))
}

pub open spec fn rat_mul(a: Rat, b: Rat) -> Rat {
    Rat { n: a.n * b.n, d: a.d * b.d }
}

/// Reciprocal, with the sign moved into the numerator.
pub open spec fn rat_inv(b: Rat) -> Rat {
    if b.n >= 0 {
        Rat { n: b.d, d: b.n }
    } else {
        Rat { n: -b.d, d: -b.n }
    }
}

pub open spec fn rat_div(a: Rat, b: Rat) -> Rat {
    rat_mul(a, rat_inv(b))
}

pub open spec fn rat_le(a: Rat, b: Rat) -> bool {
    a.n * b.d <= b.n * a.d
}

pub open spec fn rat_lt(a: Rat, b: Rat) -> bool {
    a.n * b.d < b.n * a.d
}

/// A fraction with the sign moved out of the denominator.
pub open spec fn frac(n: int, d: int) -> Rat {
    if d >= 0 {
        Rat { n: n, d: d }
    } else {
        Rat { n: -n, d: -d }
    }
}

pub open spec fn mag(x: int) -> nat {
    if x >= 0 {
        x as nat
    } else {
        (-x) as nat
    }
}

/// Greatest common divisor, by Euclid's algorithm.
pub open spec fn gcd(a: nat, b: nat) -> nat
    decreases b,
{
    if b == 0 {
        a
    } else {
        gcd(b, a % b)
    }
}

/// The fraction `r` in lowest terms, the denominator kept positive.
pub open spec fn norm(r: Rat) -> Rat
    recommends
        rat_wf(r),
{
    let g = gcd(mag(r.n), r.d as nat) as int;
    if r.n >= 0 {
        Rat { n: r.n / g, d: r.d / g }
    } else {
        Rat { n: -((-r.n) / g), d: r.d / g }
    }
}

pub open spec fn rat_fits(r: Rat) -> bool {
    -(MAXQ as int) <= r.n <= MAXQ as int && 1 <= r.d <= MAXQ as int
}

/// Normal form of `r` when that form is representable, `None` otherwise.
pub open spec fn qnorm(r: Rat) -> Option<Rat> {
    if rat_fits(norm(r)) {
        Some(norm(r))
    } else {
        None
    }
}

/// `g` divides any multiple of a number it divides.
pub proof fn lemma_divides_mul(k: int, x: int, g: int)
    requires
        g >= 1,
        x % g == 0,
    ensures
        (k * x) % g == 0,
{
    lemma_fundamental_div_mod(x, g);
    let q: int = x / g;
    assert(k * x == (k * q) * g) by (nonlinear_arith)
        requires
            x == g * q,
    ;
    lemma_mod_multiples_basic(k * q, g);
}

/// `g` divides the sum of two numbers it divides.
pub proof fn lemma_divides_add(x: int, y: int, g: int)
    requires
        g >= 1,
        x % g == 0,
        y % g == 0,
    ensures
        (x + y) % g == 0,
{
    lemma_add_mod_noop(x, y, g);
    lemma_small_mod(0nat, g as nat);
}

/// The gcd of `a` and a positive `b` is positive and divides both.
pub proof fn lemma_gcd_divides(a: nat, b: nat)
    requires
        b >= 1,
    ensures
        1 <= gcd(a, b),
        a % gcd(a, b) == 0,
        b % gcd(a, b) == 0,
    decreases b,
{
    let r: nat = a % b;
    if r == 0 {
        assert(gcd(a, b) == gcd(b, 0));
        assert(gcd(b, 0) == b);
        lemma_mod_self_0(b as int);
    } else {
        lemma_gcd_divides(b, r);
        let g: int = gcd(b, r) as int;
        assert(gcd(a, b) == gcd(b, r));
        lemma_fundamental_div_mod(a as int, b as int);
        let q: int = a as int / b as int;
        assert(a as int == q * (b as int) + r) by (nonlinear_arith)
            requires
                a as int == (b as int) * q + r,
        ;
        lemma_divides_mul(q, b as int, g);
        lemma_divides_add(q * (b as int), r as int, g);
    }
}

/// Reduction by the gcd yields an equal rational with entries no larger
/// than the originals.
pub proof fn lemma_norm(r: Rat)
    requires
        rat_wf(r),
    ensures
        rat_wf(norm(r)),
        rat_eq(norm(r), r),
        mag(norm(r).n) <= mag(r.n),
        norm(r).d <= r.d,
        mag(norm(r).n) == mag(r.n) as int / gcd(mag(r.n), r.d as nat) as int,
        norm(r).d == r.d / gcd(mag(r.n), r.d as nat) as int,
{
    let m: int = mag(r.n) as int;
    lemma_gcd_divides(mag(r.n), r.d as nat);
    let g: int = gcd(mag(r.n), r.d as nat) as int;
    lemma_fundamental_div_mod(m, g);
    lemma_fundamental_div_mod(r.d, g);
    let mq: int = m / g;
    let dq: int = r.d / g;
    assert(m == g * mq);
    assert(r.d == g * dq);
    assert(dq >= 1) by (nonlinear_arith)
        requires
            r.d == g * dq,
            g >= 1,
            r.d >= 1,
    ;
    lemma_div_pos_is_pos(m, g);
    lemma_div_nonincreasing(m, g);
    lemma_div_nonincreasing(r.d, g);
    if r.n >= 0 {
        assert(norm(r).n == mq);
        assert(mq * r.d == r.n * dq) by (nonlinear_arith)
            requires
                r.n == g * mq,
                r.d == g * dq,
        ;
    } else {
        assert(norm(r).n == -mq);
        assert((-mq) * r.d == r.n * dq) by (nonlinear_arith)
            requires
                -r.n == g * mq,
                r.d == g * dq,
        ;
    }
}

/// Bounds a product of two bounded integers.
pub proof fn lemma_mul_bound(x: int, y: int, xb: int, yb: int)
    by (nonlinear_arith)
    requires
        -xb <= x <= xb,
        -yb <= y <= yb,
        0 <= xb,
        0 <= yb,
    ensures
        -(xb * yb) <= x * y <= xb * yb,
{
}

/// Bounds a product of two positive bounded integers from both sides.
pub proof fn lemma_mul_pos(x: int, y: int, xb: int, yb: int)
    by (nonlinear_arith)
    requires
        1 <= x <= xb,
        1 <= y <= yb,
    ensures
        1 <= x * y <= xb * yb,
{
}

/// An executable scalar: the exact rational `n / d`.
#[derive(Clone, Copy, PartialEq, Eq, Structural, Debug)]
pub struct Scalar {
    pub(crate) n: i64,
    pub(crate) d: i64,
}

impl View for Scalar {
    type V = Rat;

    closed spec fn view(&self) -> Rat {
        Rat { n: self.n as int, d: self.d as int }
    }
}

impl Scalar {
    /// The stored fraction is within range and its denominator positive.
    pub closed spec fn wf(self) -> bool {
        1 <= self.d <= MAXQ && -MAXQ <= self.n <= MAXQ
    }

    /// What well-formedness means for the denoted fraction.
    pub proof fn lemma_wf(self)
        requires
            self.wf(),
        ensures
            rat_wf(self@),
            rat_fits(self@),
    {
    }
}

pub open spec fn ov(o: Option<Scalar>) -> Option<Rat> {
    match o {
        Some(q) => Some(q@),
        None => None,
    }
}

pub open spec fn owf(o: Option<Scalar>) -> bool {
    match o {
        Some(q) => q.wf(),
        None => true,
    }
}

/// Euclid's algorithm on machine words.
pub fn gcd_u128(a0: u128, b0: u128) -> (g: u128)
    ensures
        g as nat == gcd(a0 as nat, b0 as nat),
{
    let mut a: u128 = a0;
    let mut b: u128 = b0;
    while b != 0
        invariant
            gcd(a as nat, b as nat) == gcd(a0 as nat, b0 as nat),
        decreases b,
    {
        let t: u128 = a % b;
        proof {
            assert(gcd(a as nat, b as nat) == gcd(b as nat, t as nat));
        }
        a = b;
        b = t;
    }
    proof {
        assert(gcd(a as nat, 0nat) == a as nat);
    }
    a
}

/// Brings `n / d` to lowest terms; `None` when even the reduced form is out
/// of range.
pub(crate) fn reduce128(n: i128, d: i128) -> (r: Option<Scalar>)
    requires
        1 <= d <= MAXN128,
        -MAXN128 <= n <= MAXN128,
    ensures
        ov(r) == qnorm(Rat { n: n as int, d: d as int }),
        owf(r),
{
    let ghost rr = Rat { n: n as int, d: d as int };
    proof {
        lemma_norm(rr);
    }
    let m: u128 = if n >= 0 {
        n as u128
    } else {
        (-n) as u128
    };
    let dd: u128 = d as u128;
    let g: u128 = gcd_u128(m, dd);
    proof {
        lemma_gcd_divides(m as nat, dd as nat);
    }
    let nn: u128 = m / g;
    let dq: u128 = dd / g;
    proof {
        assert(nn as nat == mag(norm(rr).n));
        assert(dq as int == norm(rr).d);
    }
    if nn <= MAXQ as u128 && dq <= MAXQ as u128 {
        let sn: i64 = if n >= 0 {
            nn as i64
        } else {
            -(nn as i64)
        };
        let s = Scalar { n: sn, d: dq as i64 };
        proof {
            assert(s@ == norm(rr));
            assert(rat_fits(norm(rr)));
        }
        Some(s)
    } else {
        proof {
            assert(!rat_fits(norm(rr)));
        }
        None
    }
}

/// Reduction of a fraction already within range; always succeeds.
pub(crate) fn reduce_small(n: i128, d: i128) -> (r: Scalar)
    requires
        1 <= d <= MAXQ as i128,
        -(MAXQ as i128) <= n <= MAXQ as i128,
    ensures
        r.wf(),
        r@ == norm(Rat { n: n as int, d: d as int }),
{
    proof {
        lemma_norm(Rat { n: n as int, d: d as int });
    }
    match reduce128(n, d) {
        Some(q) => q,
        None => {
            proof {
                assert(false);
            }
            Scalar { n: 0, d: 1 }
        },
    }
}

impl Scalar {
    /// The scalar `n / d`, in lowest terms.
    pub fn ratio(n: i64, d: i64) -> (r: Scalar)
        requires
            d != 0,
            -MAXQ <= n <= MAXQ,
            -MAXQ <= d <= MAXQ,
        ensures
            r.wf(),
            r@ == norm(frac(n as int, d as int)),
    {
        if d < 0 {
            reduce_small(-(n as i128), -(d as i128))
        } else {
            reduce_small(n as i128, d as i128)
        }
    }

    /// The scalar `i / 1`.
    pub fn from_int(i: i64) -> (r: Scalar)
        requires
            -MAXQ <= i <= MAXQ,
        ensures
            r.wf(),
            r@ == rat_int(i as int),
    {
        Scalar { n: i, d: 1 }
    }

    pub fn zero() -> (r: Scalar)
        ensures
            r.wf(),
            r@ == rat_zero(),
    {
        Scalar { n: 0, d: 1 }
    }

    pub fn one() -> (r: Scalar)
        ensures
            r.wf(),
            r@ == rat_one(),
    {
        Scalar { n: 1, d: 1 }
    }

    pub fn num(&self) -> (n: i64)
        ensures
            n as int == self@.n,
    {
        self.n
    }

    pub fn den(&self) -> (d: i64)
        ensures
            d as int == self@.d,
    {
        self.d
    }

    /// Exact negation; never leaves the representable range.
    pub fn neg(&self) -> (r: Scalar)
        requires
            self.wf(),
        ensures
            r.wf(),
            r@ == rat_neg(self@),
    {
        Scalar { n: -self.n, d: self.d }
    }

    pub fn checked_add(&self, o: &Scalar) -> (r: Option<Scalar>)
        requires
            self.wf(),
            o.wf(),
        ensures
            ov(r) == qnorm(rat_add(self@, o@)),
            owf(r),
    {
        proof {
            lemma_mul_bound(self.n as int, o.d as int, MAXQ as int, MAXQ as int);
            lemma_mul_bound(o.n as int, self.d as int, MAXQ as int, MAXQ as int);
            lemma_mul_pos(self.d as int, o.d as int, MAXQ as int, MAXQ as int);
        }
        let n1: i128 = (self.n as i128) * (o.d as i128) + (o.n as i128) * (self.d as i128);
        let d1: i128 = (self.d as i128) * (o.d as i128);
        reduce128(n1, d1)
    }

    pub fn checked_sub(&self, o: &Scalar) -> (r: Option<Scalar>)
        requires
            self.wf(),
            o.wf(),
        ensures
            ov(r) == qnorm(rat_sub(self@, o@)),
            owf(r),
    {
        proof {
            lemma_mul_bound(self.n as int, o.d as int, MAXQ as int, MAXQ as int);
            lemma_mul_bound(o.n as int, self.d as int, MAXQ as int, MAXQ as int);
            lemma_mul_pos(self.d as int, o.d as int, MAXQ as int, MAXQ as int);
        }
        let n1: i128 = (self.n as i128) * (o.d as i128) - (o.n as i128) * (self.d as i128);
        let d1: i128 = (self.d as i128) * (o.d as i128);
        proof {
            assert(n1 == rat_sub(self@, o@).n) by (nonlinear_arith)
                requires
                    n1 == (self.n as int) * (o.d as int) - (o.n as int) * (self.d as int),
            ;
        }
        reduce128(n1, d1)
    }

    pub fn checked_mul(&self, o: &Scalar) -> (r: Option<Scalar>)
        requires
            self.wf(),
            o.wf(),
        ensures
            ov(r) == qnorm(rat_mul(self@, o@)),
            owf(r),
    {
        proof {
            lemma_mul_bound(self.n as int, o.n as int, MAXQ as int, MAXQ as int);
            lemma_mul_pos(self.d as int, o.d as int, MAXQ as int, MAXQ as int);
        }
        let n1: i128 = (self.n as i128) * (o.n as i128);
        let d1: i128 = (self.d as i128) * (o.d as i128);
        reduce128(n1, d1)
    }

    /// Division; `None` when the divisor is zero or the result does not fit.
    pub fn checked_div(&self, o: &Scalar) -> (r: Option<Scalar>)
        requires
            self.wf(),
            o.wf(),
        ensures
            ov(r) == qdivn(self@, o@),
            owf(r),
    {
        if o.n == 0 {
            None
        } else {
            let bn: i64 = if o.n >= 0 {
                o.d
            } else {
                -o.d
            };
            let bd: i64 = if o.n >= 0 {
                o.n
            } else {
                -o.n
            };
            proof {
                lemma_mul_bound(self.n as int, bn as int, MAXQ as int, MAXQ as int);
                lemma_mul_pos(self.d as int, bd as int, MAXQ as int, MAXQ as int);
            }
            let n1: i128 = (self.n as i128) * (bn as i128);
            let d1: i128 = (self.d as i128) * (bd as i128);
            reduce128(n1, d1)
        }
    }

    pub fn le(&self, o: &Scalar) -> (r: bool)
        requires
            self.wf(),
            o.wf(),
        ensures
            r == rat_le(self@, o@),
    {
        proof {
            lemma_mul_bound(self.n as int, o.d as int, MAXQ as int, MAXQ as int);
            lemma_mul_bound(o.n as int, self.d as int, MAXQ as int, MAXQ as int);
        }
        (self.n as i128) * (o.d as i128) <= (o.n as i128) * (self.d as i128)
    }

    pub fn lt(&self, o: &Scalar) -> (r: bool)
        requires
            self.wf(),
            o.wf(),
        ensures
            r == rat_lt(self@, o@),
    {
        proof {
            lemma_mul_bound(self.n as int, o.d as int, MAXQ as int, MAXQ as int);
            lemma_mul_bound(o.n as int, self.d as int, MAXQ as int, MAXQ as int);
        }
        (self.n as i128) * (o.d as i128) < (o.n as i128) * (self.d as i128)
    }

    /// Whether the two scalars denote the same rational number.
    pub fn eq_rat(&self, o: &Scalar) -> (r: bool)
        requires
            self.wf(),
            o.wf(),
        ensures
            r == rat_eq(self@, o@),
    {
        proof {
            lemma_mul_bound(self.n as int, o.d as int, MAXQ as int, MAXQ as int);
            lemma_mul_bound(o.n as int, self.d as int, MAXQ as int, MAXQ as int);
        }
        (self.n as i128) * (o.d as i128) == (o.n as i128) * (self.d as i128)
    }

    pub fn is_zero(&self) -> (r: bool)
        ensures
            r == (self@.n == 0),
    {
        self.n == 0
    }
}

/// Division at the model level: `None` for a zero divisor or an
/// unrepresentable result.
pub open spec fn qdivn(a: Rat, b: Rat) -> Option<Rat> {
    if b.n == 0 {
        None
    } else {
        qnorm(rat_div(a, b))
    }
}

/// Checked addition lifted over partiality.
pub open spec fn qadd2(a: Option<Rat>, b: Option<Rat>) -> Option<Rat> {
    match (a, b) {
        (Some(x), Some(y)) => qnorm(rat_add(x, y)),
        _ => None,
    }
}

/// Checked subtraction lifted over partiality.
pub open spec fn qsub2(a: Option<Rat>, b: Option<Rat>) -> Option<Rat> {
    match (a, b) {
        (Some(x), Some(y)) => qnorm(rat_sub(x, y)),
        _ => None,
    }
}

/// Checked multiplication lifted over partiality.
pub open spec fn qmul2(a: Option<Rat>, b: Option<Rat>) -> Option<Rat> {
    match (a, b) {
        (Some(x), Some(y)) => qnorm(rat_mul(x, y)),
        _ => None,
    }
}

/// Checked division lifted over partiality.
pub open spec fn qdiv2(a: Option<Rat>, b: Option<Rat>) -> Option<Rat> {
    match (a, b) {
        (Some(x), Some(y)) => qdivn(x, y),
        _ => None,
    }
}

/// Sum of three products, as the checked kernel computes it.
pub open spec fn rdot3(a0: Rat, a1: Rat, a2: Rat, b0: Rat, b1: Rat, b2: Rat) -> Option<Rat> {
    qadd2(
        qadd2(qmul2(Some(a0), Some(b0)), qmul2(Some(a1), Some(b1))),
        qmul2(Some(a2), Some(b2)),
    )
}

pub fn opt_add(a: Option<Scalar>, b: Option<Scalar>) -> (r: Option<Scalar>)
    requires
        owf(a),
        owf(b),
    ensures
        owf(r),
        ov(r) == qadd2(ov(a), ov(b)),
{
    match (a, b) {
        (Some(x), Some(y)) => x.checked_add(&y),
        _ => None,
    }
}

pub fn opt_sub(a: Option<Scalar>, b: Option<Scalar>) -> (r: Option<Scalar>)
    requires
        owf(a),
        owf(b),
    ensures
        owf(r),
        ov(r) == qsub2(ov(a), ov(b)),
{
    match (a, b) {
        (Some(x), Some(y)) => x.checked_sub(&y),
        _ => None,
    }
}

pub fn opt_mul(a: Option<Scalar>, b: Option<Scalar>) -> (r: Option<Scalar>)
    requires
        owf(a),
        owf(b),
    ensures
        owf(r),
        ov(r) == qmul2(ov(a), ov(b)),
{
    match (a, b) {
        (Some(x), Some(y)) => x.checked_mul(&y),
        _ => None,
    }
}

pub fn opt_div(a: Option<Scalar>, b: Option<Scalar>) -> (r: Option<Scalar>)
    requires
        owf(a),
        owf(b),
    ensures
        owf(r),
        ov(r) == qdiv2(ov(a), ov(b)),
{
    match (a, b) {
        (Some(x), Some(y)) => x.checked_div(&y),
        _ => None,
    }
}

/// Sum of three products over scalars.
pub fn dot3(a0: &Scalar, a1: &Scalar, a2: &Scalar, b0: &Scalar, b1: &Scalar, b2: &Scalar) -> (r:
    Option<Scalar>)
    requires
        a0.wf(),
        a1.wf(),
        a2.wf(),
        b0.wf(),
        b1.wf(),
        b2.wf(),
    ensures
        owf(r),
        ov(r) == rdot3(a0@, a1@, a2@, b0@, b1@, b2@),
{
    opt_add(opt_add(a0.checked_mul(b0), a1.checked_mul(b1)), a2.checked_mul(b2))
}

/// Denoting the same rational is transitive.
pub proof fn lemma_rat_eq_trans(a: Rat, b: Rat, c: Rat)
    by (nonlinear_arith)
    requires
        rat_wf(a),
        rat_wf(b),
        rat_wf(c),
        rat_eq(a, b),
        rat_eq(b, c),
    ensures
        rat_eq(a, c),
{
}

/// Expands one side of the sum-congruence equation.
#[verifier::rlimit(50)]
proof fn lemma_add_expand(a: Rat, a2: Rat, b: Rat)
    by (nonlinear_arith)
    ensures
        (a.n * b.d + b.n * a.d) * (a2.d * b.d) == (a.n * a2.d) * (b.d * b.d) + b.n * (a.d * (a2.d
            * b.d)),
{
}

/// Addition respects rational equality in its left argument.
proof fn lemma_add_congr_l(a: Rat, a2: Rat, b: Rat)
    requires
        rat_eq(a, a2),
    ensures
        rat_eq(rat_add(a, b), rat_add(a2, b)),
{
    lemma_add_expand(a, a2, b);
    lemma_add_expand(a2, a, b);
    assert(a.d * (a2.d * b.d) == a2.d * (a.d * b.d)) by (nonlinear_arith);
}

/// Addition of fractions is commutative on the nose.
pub proof fn lemma_rat_add_comm(a: Rat, b: Rat)
    by (nonlinear_arith)
    ensures
        rat_add(a, b) == rat_add(b, a),
{
}

/// Addition respects rational equality.
pub proof fn lemma_add_congr(a: Rat, a2: Rat, b: Rat, b2: Rat)
    requires
        rat_wf(a),
        rat_wf(a2),
        rat_wf(b),
        rat_wf(b2),
        rat_eq(a, a2),
        rat_eq(b, b2),
    ensures
        rat_eq(rat_add(a, b), rat_add(a2, b2)),
        rat_wf(rat_add(a, b)),
{
    lemma_add_congr_l(a, a2, b);
    lemma_rat_add_comm(a2, b);
    lemma_rat_add_comm(a2, b2);
    lemma_add_congr_l(b, b2, a2);
    assert(rat_wf(rat_add(a, b)) && rat_wf(rat_add(a2, b)) && rat_wf(rat_add(a2, b2)))
        by (nonlinear_arith)
        requires
            a.d >= 1,
            a2.d >= 1,
            b.d >= 1,
            b2.d >= 1,
    ;
    lemma_rat_eq_trans(rat_add(a, b), rat_add(a2, b), rat_add(a2, b2));
}

/// Multiplication respects rational equality in its left argument.
proof fn lemma_mul_congr_l(a: Rat, a2: Rat, b: Rat)
    by (nonlinear_arith)
    requires
        rat_eq(a, a2),
    ensures
        rat_eq(rat_mul(a, b), rat_mul(a2, b)),
{
}

/// Multiplication respects rational equality.
pub proof fn lemma_mul_congr(a: Rat, a2: Rat, b: Rat, b2: Rat)
    requires
        rat_wf(a),
        rat_wf(a2),
        rat_wf(b),
        rat_wf(b2),
        rat_eq(a, a2),
        rat_eq(b, b2),
    ensures
        rat_eq(rat_mul(a, b), rat_mul(a2, b2)),
        rat_wf(rat_mul(a, b)),
{
    lemma_mul_congr_l(a, a2, b);
    lemma_rat_mul_comm(a2, b);
    lemma_rat_mul_comm(a2, b2);
    lemma_mul_congr_l(b, b2, a2);
    assert(rat_wf(rat_mul(a, b)) && rat_wf(rat_mul(a2, b)) && rat_wf(rat_mul(a2, b2)))
        by (nonlinear_arith)
        requires
            a.d >= 1,
            a2.d >= 1,
            b.d >= 1,
            b2.d >= 1,
    ;
    lemma_rat_eq_trans(rat_mul(a, b), rat_mul(a2, b), rat_mul(a2, b2));
}

/// Multiplication of fractions is commutative on the nose.
pub proof fn lemma_rat_mul_comm(a: Rat, b: Rat)
    by (nonlinear_arith)
    ensures
        rat_mul(a, b) == rat_mul(b, a),
{
}

/// Multiplication of fractions is associative on the nose.
pub proof fn lemma_rat_mul_assoc(a: Rat, b: Rat, c: Rat)
    by (nonlinear_arith)
    ensures
        rat_mul(rat_mul(a, b), c) == rat_mul(a, rat_mul(b, c)),
{
}

/// The exact (unreduced) sum of three products.
pub open spec fn rat_dot3(a0: Rat, a1: Rat, a2: Rat, b0: Rat, b1: Rat, b2: Rat) -> Rat {
    rat_add(rat_add(rat_mul(a0, b0), rat_mul(a1, b1)), rat_mul(a2, b2))
}

/// A successful checked dot product denotes the exact sum of products.
pub proof fn lemma_rdot3_equiv(a0: Rat, a1: Rat, a2: Rat, b0: Rat, b1: Rat, b2: Rat, x: Rat)
    requires
        rat_wf(a0),
        rat_wf(a1),
        rat_wf(a2),
        rat_wf(b0),
        rat_wf(b1),
        rat_wf(b2),
        rdot3(a0, a1, a2, b0, b1, b2) == Some(x),
    ensures
        rat_wf(x),
        rat_eq(x, rat_dot3(a0, a1, a2, b0, b1, b2)),
{
    let m0 = rat_mul(a0, b0);
    let m1 = rat_mul(a1, b1);
    let m2 = rat_mul(a2, b2);
    assert(rat_wf(m0) && rat_wf(m1) && rat_wf(m2)) by (nonlinear_arith)
        requires
            m0 == rat_mul(a0, b0),
            m1 == rat_mul(a1, b1),
            m2 == rat_mul(a2, b2),
            a0.d >= 1,
            a1.d >= 1,
            a2.d >= 1,
            b0.d >= 1,
            b1.d >= 1,
            b2.d >= 1,
    ;
    assert(rat_wf(rat_add(m0, m1)) && rat_wf(rat_add(rat_add(m0, m1), m2))) by (nonlinear_arith)
        requires
            m0.d >= 1,
            m1.d >= 1,
            m2.d >= 1,
    ;
    let y0 = qnorm(m0)->Some_0;
    let y1 = qnorm(m1)->Some_0;
    lemma_qnorm(m0);
    lemma_qnorm(m1);
    lemma_qnorm(m2);
    let s1 = rat_add(y0, y1);
    let z1 = qnorm(s1)->Some_0;
    lemma_add_congr(y0, m0, y1, m1);
    lemma_qnorm(s1);
    let y2 = qnorm(m2)->Some_0;
    lemma_rat_eq_trans(z1, s1, rat_add(m0, m1));
    let s2 = rat_add(z1, y2);
    lemma_add_congr(z1, rat_add(m0, m1), y2, m2);
    lemma_qnorm(s2);
    lemma_rat_eq_trans(x, s2, rat_dot3(a0, a1, a2, b0, b1, b2));
}

/// Order between rationals respects rational equality, left argument.
proof fn lemma_le_congr_l(a: Rat, a2: Rat, b: Rat)
    by (nonlinear_arith)
    requires
        rat_wf(a),
        rat_wf(a2),
        rat_wf(b),
        rat_eq(a, a2),
        rat_le(a, b),
    ensures
        rat_le(a2, b),
{
}

/// Order between rationals respects rational equality, right argument.
proof fn lemma_le_congr_r(a: Rat, b: Rat, b2: Rat)
    by (nonlinear_arith)
    requires
        rat_wf(a),
        rat_wf(b),
        rat_wf(b2),
        rat_eq(b, b2),
        rat_le(a, b),
    ensures
        rat_le(a, b2),
{
}

/// Order between rationals respects rational equality.
pub proof fn lemma_le_congr(a: Rat, a2: Rat, b: Rat, b2: Rat)
    requires
        rat_wf(a),
        rat_wf(a2),
        rat_wf(b),
        rat_wf(b2),
        rat_eq(a, a2),
        rat_eq(b, b2),
        rat_le(a, b),
    ensures
        rat_le(a2, b2),
{
    lemma_le_congr_l(a, a2, b);
    lemma_le_congr_r(a2, b, b2);
}

/// A successful normalization denotes the fraction it started from.
pub proof fn lemma_qnorm(r: Rat)
    requires
        rat_wf(r),
    ensures
        match qnorm(r) {
            Some(x) => rat_wf(x) && rat_fits(x) && rat_eq(x, r),
            None => true,
        },
{
    lemma_norm(r);
}

} // verus!

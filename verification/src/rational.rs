//! Exact rational arithmetic.
//!
//! World coordinates, scales and zoom factors are rationals with an
//! `i128` numerator and a positive `i128` denominator, so every pan and
//! zoom step of the interaction core is computed exactly.  `Frac` is the
//! unbounded mathematical fraction used in contracts; `Rat` is the
//! executable value.  Stored state is kept reduced and within
//! [`COORD_BOUND`] so that a tick's intermediate products always fit in
//! an `i128`.

use vstd::prelude::*;

verus! {

/// Mathematical fraction; contracts are stated over these.
pub struct Frac {
    pub n: int,
    pub d: int,
}

/// A fraction is well formed when its denominator is positive.
pub open spec fn fwf(a: Frac) -> bool {
    a.d >= 1
}

/// The two fractions denote the same rational number.
pub open spec fn feqv(a: Frac, b: Frac) -> bool {
    a.n * b.d == b.n * a.d
}

/// The fraction for the integer `n`.
pub open spec fn fint(n: int) -> Frac {
    Frac { n: n, d: 1 }
}

pub open spec fn fadd(a: Frac, b: Frac) -> Frac {
    Frac { n: a.n * b.d + b.n * a.d, d: a.d * b.d }
}

pub open spec fn fsub(a: Frac, b: Frac) -> Frac {
    Frac { n: a.n * b.d - b.n * a.d, d: a.d * b.d }
}

pub open spec fn fmul(a: Frac, b: Frac) -> Frac {
    Frac { n: a.n * b.n, d: a.d * b.d }
}

/// Quotient `a / b`, with the sign moved into the numerator so that a
/// well-formed dividend and a nonzero divisor give a well-formed result.
pub open spec fn fdiv(a: Frac, b: Frac) -> Frac {
    if b.n >= 0 {
        Frac { n: a.n * b.d, d: a.d * b.n }
    } else {
        Frac { n: -(a.n * b.d), d: -(a.d * b.n) }
    }
}

/// `a <= b` as rationals; meaningful for well-formed fractions.
pub open spec fn fle(a: Frac, b: Frac) -> bool {
    a.n * b.d <= b.n * a.d
}

pub open spec fn fmin(a: Frac, b: Frac) -> Frac {
    if fle(a, b) {
        a
    } else {
        b
    }
}

pub open spec fn fmax(a: Frac, b: Frac) -> Frac {
    if fle(a, b) {
        b
    } else {
        a
    }
}

/// `x` clamped into `[lo, hi]`.
pub open spec fn fclamp(x: Frac, lo: Frac, hi: Frac) -> Frac {
    fmin(fmax(x, lo), hi)
}

/// Greatest common divisor of two nonnegative integers.
pub open spec fn gcd(a: int, b: int) -> int
    recommends
        a >= 0,
        b >= 0,
    decreases b,
{
    if b <= 0 {
        a
    } else {
        gcd(b, a % b)
    }
}

/// `a` with numerator and denominator divided by their greatest common
/// divisor; the canonical representative of a rational value.
pub open spec fn freduce(a: Frac) -> Frac
    recommends
        fwf(a),
{
    if a.n == 0 {
        Frac { n: 0, d: 1 }
    } else if a.n > 0 {
        Frac { n: a.n / gcd(a.n, a.d), d: a.d / gcd(a.n, a.d) }
    } else {
        Frac { n: -((-a.n) / gcd(-a.n, a.d)), d: a.d / gcd(-a.n, a.d) }
    }
}

/// Largest magnitude allowed for a stored numerator or denominator.
pub const COORD_BOUND: i128 = 0x1000000;

/// The fraction's components are small enough to be stored in the
/// interaction state.
pub open spec fn fbounded(a: Frac) -> bool {
    &&& -0x1000000 <= a.n <= 0x1000000
    &&& 1 <= a.d <= 0x1000000
}

/// `next` where it can be stored, otherwise `prev`: updates at the
/// representation limit leave the state unchanged.
pub open spec fn fkeep(next: Frac, prev: Frac) -> Frac {
    if fbounded(next) {
        next
    } else {
        prev
    }
}

/// Half of `a`, exactly.
pub open spec fn fhalf(a: Frac) -> Frac {
    Frac { n: a.n, d: a.d * 2 }
}

/// The product of the two integers fits in an `i128`.
pub open spec fn mul_fits(x: int, y: int) -> bool {
    -0x80000000000000000000000000000000 <= x * y <= 0x7fffffffffffffffffffffffffffffff
}

/// The integer fits in an `i128`.
pub open spec fn in_i128(x: int) -> bool {
    -0x80000000000000000000000000000000 <= x <= 0x7fffffffffffffffffffffffffffffff
}

/// Executable rational number.
#[derive(Clone, Copy, Debug)]
pub struct Rat {
    n: i128,
    d: i128,
}

impl View for Rat {
    type V = Frac;

    closed spec fn view(&self) -> Frac {
        Frac { n: self.n as int, d: self.d as int }
    }
}

impl Rat {
    /// The denominator is positive.
    pub open spec fn wf(&self) -> bool {
        fwf(self@)
    }

    pub fn new(n: i128, d: i128) -> (r: Rat)
        requires
            1 <= d,
        ensures
            r@ == (Frac { n: n as int, d: d as int }),
            r.wf(),
    {
        Rat { n: n, d: d }
    }

    pub fn from_int(n: i128) -> (r: Rat)
        ensures
            r@ == fint(n as int),
            r.wf(),
    {
        Rat { n: n, d: 1 }
    }

    pub fn num(&self) -> (r: i128)
        ensures
            r == self@.n,
    {
        self.n
    }

    pub fn den(&self) -> (r: i128)
        ensures
            r == self@.d,
    {
        self.d
    }

    pub fn add(&self, other: &Rat) -> (r: Rat)
        requires
            self.wf(),
            other.wf(),
            mul_fits(self@.n, other@.d),
            mul_fits(other@.n, self@.d),
            in_i128(self@.n * other@.d + other@.n * self@.d),
            mul_fits(self@.d, other@.d),
        ensures
            r@ == fadd(self@, other@),
            r.wf(),
    {
        proof {
            vstd::arithmetic::mul::lemma_mul_strictly_positive(self@.d, other@.d);
        }
        Rat { n: self.n * other.d + other.n * self.d, d: self.d * other.d }
    }

    pub fn sub(&self, other: &Rat) -> (r: Rat)
        requires
            self.wf(),
            other.wf(),
            mul_fits(self@.n, other@.d),
            mul_fits(other@.n, self@.d),
            in_i128(self@.n * other@.d - other@.n * self@.d),
            mul_fits(self@.d, other@.d),
        ensures
            r@ == fsub(self@, other@),
            r.wf(),
    {
        proof {
            vstd::arithmetic::mul::lemma_mul_strictly_positive(self@.d, other@.d);
        }
        Rat { n: self.n * other.d - other.n * self.d, d: self.d * other.d }
    }

    pub fn mul(&self, other: &Rat) -> (r: Rat)
        requires
            self.wf(),
            other.wf(),
            mul_fits(self@.n, other@.n),
            mul_fits(self@.d, other@.d),
        ensures
            r@ == fmul(self@, other@),
            r.wf(),
    {
        proof {
            vstd::arithmetic::mul::lemma_mul_strictly_positive(self@.d, other@.d);
        }
        Rat { n: self.n * other.n, d: self.d * other.d }
    }

    pub fn div(&self, other: &Rat) -> (r: Rat)
        requires
            self.wf(),
            other.wf(),
            other@.n != 0,
            mul_fits(self@.n, other@.d),
            mul_fits(self@.d, other@.n),
            in_i128(-(self@.n * other@.d)),
            in_i128(-(self@.d * other@.n)),
        ensures
            r@ == fdiv(self@, other@),
            r.wf(),
    {
        if other.n >= 0 {
            proof {
                vstd::arithmetic::mul::lemma_mul_strictly_positive(self@.d, other@.n);
            }
            Rat { n: self.n * other.d, d: self.d * other.n }
        } else {
            proof {
                vstd::arithmetic::mul::lemma_mul_strictly_positive(self@.d, -other@.n);
                assert(self@.d * -other@.n == -(self@.d * other@.n)) by (nonlinear_arith);
            }
            Rat { n: -(self.n * other.d), d: -(self.d * other.n) }
        }
    }

    pub fn le(&self, other: &Rat) -> (r: bool)
        requires
            self.wf(),
            other.wf(),
            mul_fits(self@.n, other@.d),
            mul_fits(other@.n, self@.d),
        ensures
            r == fle(self@, other@),
    {
        self.n * other.d <= other.n * self.d
    }

    pub fn eqv(&self, other: &Rat) -> (r: bool)
        requires
            self.wf(),
            other.wf(),
            mul_fits(self@.n, other@.d),
            mul_fits(other@.n, self@.d),
        ensures
            r == feqv(self@, other@),
    {
        self.n * other.d == other.n * self.d
    }

    /// Half of the value, exactly.
    pub fn half(&self) -> (r: Rat)
        requires
            self.wf(),
            in_i128(self@.d * 2),
        ensures
            r@ == fhalf(self@),
            r.wf(),
    {
        Rat { n: self.n, d: self.d * 2 }
    }

    /// Canonical representative: numerator and denominator divided by
    /// their greatest common divisor.
    pub fn normalize(&self) -> (r: Rat)
        requires
            self.wf(),
            in_i128(-self@.n),
        ensures
            r@ == freduce(self@),
            r.wf(),
    {
        if self.n == 0 {
            return Rat { n: 0, d: 1 };
        }
        let m: i128 = if self.n < 0 {
            -self.n
        } else {
            self.n
        };
        let g: i128 = gcd_exec(m, self.d);
        proof {
            lemma_gcd_divides(m as int, self.d as int);
            vstd::arithmetic::div_mod::lemma_div_pos_is_pos(m as int, g as int);
            vstd::arithmetic::div_mod::lemma_div_pos_is_pos(self.d as int, g as int);
            vstd::arithmetic::div_mod::lemma_div_nonincreasing(m as int, g as int);
            vstd::arithmetic::div_mod::lemma_div_nonincreasing(self.d as int, g as int);
            vstd::arithmetic::div_mod::lemma_fundamental_div_mod(self.d as int, g as int);
            assert(self.d as int / g as int >= 1) by (nonlinear_arith)
                requires
                    self.d as int == g as int * (self.d as int / g as int),
                    self.d >= 1,
                    g >= 1,
                    self.d as int / g as int >= 0,
            ;
        }
        if self.n < 0 {
            Rat { n: -(m / g), d: self.d / g }
        } else {
            Rat { n: m / g, d: self.d / g }
        }
    }

    /// The stored components are within [`COORD_BOUND`].
    pub open spec fn bounded(&self) -> bool {
        fbounded(self@)
    }

    /// Executable test matching [`fbounded`].
    pub fn is_bounded(&self) -> (r: bool)
        ensures
            r == fbounded(self@),
    {
        -COORD_BOUND <= self.n && self.n <= COORD_BOUND && 1 <= self.d && self.d <= COORD_BOUND
    }
}

/// The greatest common divisor of two nonnegative integers, not both
/// zero, is positive and divides both.
pub proof fn lemma_gcd_divides(a: int, b: int)
    requires
        a >= 0,
        b >= 0,
        a >= 1 || b >= 1,
    ensures
        gcd(a, b) >= 1,
        a % gcd(a, b) == 0,
        b % gcd(a, b) == 0,
    decreases b,
{
    if b <= 0 {
        assert(gcd(a, b) == a);
        vstd::arithmetic::div_mod::lemma_mod_self_0(a);
        vstd::arithmetic::div_mod::lemma_small_mod(0, a as nat);
    } else {
        let r = a % b;
        vstd::arithmetic::div_mod::lemma_mod_division_less_than_divisor(a, b);
        assert(0 <= r < b);
        lemma_gcd_divides(b, r);
        let g = gcd(b, r);
        assert(gcd(a, b) == g);
        vstd::arithmetic::div_mod::lemma_fundamental_div_mod(a, b);
        assert(a == b * (a / b) + r);
        vstd::arithmetic::div_mod::lemma_fundamental_div_mod(b, g);
        assert(b == g * (b / g)) by {
            assert(b % g == 0);
        }
        assert(a == g * ((b / g) * (a / b)) + r) by (nonlinear_arith)
            requires
                a == b * (a / b) + r,
                b == g * (b / g),
        ;
        vstd::arithmetic::div_mod::lemma_mod_multiples_vanish((b / g) * (a / b), r, g);
    }
}

/// Reducing a well-formed fraction keeps it well formed, denotes the
/// same rational value, and never grows a component.
pub proof fn lemma_freduce(a: Frac)
    requires
        fwf(a),
    ensures
        fwf(freduce(a)),
        feqv(freduce(a), a),
        freduce(a).d <= a.d,
        a.n >= 0 ==> 0 <= freduce(a).n <= a.n,
        a.n < 0 ==> a.n <= freduce(a).n <= 0,
{
    if a.n == 0 {
    } else {
        let m = if a.n > 0 {
            a.n
        } else {
            -a.n
        };
        let g = gcd(m, a.d);
        lemma_gcd_divides(m, a.d);
        vstd::arithmetic::div_mod::lemma_div_pos_is_pos(m, g);
        vstd::arithmetic::div_mod::lemma_div_pos_is_pos(a.d, g);
        vstd::arithmetic::div_mod::lemma_div_nonincreasing(m, g);
        vstd::arithmetic::div_mod::lemma_div_nonincreasing(a.d, g);
        vstd::arithmetic::div_mod::lemma_fundamental_div_mod(m, g);
        vstd::arithmetic::div_mod::lemma_fundamental_div_mod(a.d, g);
        assert(a.d / g >= 1) by (nonlinear_arith)
            requires
                a.d == g * (a.d / g),
                a.d >= 1,
                g >= 1,
                a.d / g >= 0,
        ;
        assert(m == g * (m / g));
        assert(a.d == g * (a.d / g));
        if a.n > 0 {
            assert((m / g) * a.d == a.n * (a.d / g)) by (nonlinear_arith)
                requires
                    m == a.n,
                    m == g * (m / g),
                    a.d == g * (a.d / g),
                    g >= 1,
            ;
        } else {
            assert((-(m / g)) * a.d == a.n * (a.d / g)) by (nonlinear_arith)
                requires
                    m == -a.n,
                    m == g * (m / g),
                    a.d == g * (a.d / g),
                    g >= 1,
            ;
        }
    }
}

/// A product of integers of bounded magnitude is bounded by the product
/// of the bounds.
pub proof fn lemma_abs_mul(x: int, y: int, bx: int, by: int) by (nonlinear_arith)
    requires
        -bx <= x <= bx,
        -by <= y <= by,
        0 <= bx,
        0 <= by,
    ensures
        -(bx * by) <= x * y <= bx * by,
{
}

/// Denoting the same rational number is transitive.
pub proof fn lemma_feqv_trans(a: Frac, b: Frac, c: Frac)
    requires
        fwf(a),
        fwf(b),
        fwf(c),
        feqv(a, b),
        feqv(b, c),
    ensures
        feqv(a, c),
{
    assert(a.n * c.d == c.n * a.d) by (nonlinear_arith)
        requires
            a.n * b.d == b.n * a.d,
            b.n * c.d == c.n * b.d,
            b.d >= 1,
    ;
}

/// Sums, differences and products of well-formed fractions are well
/// formed.
pub proof fn lemma_fwf_ops(a: Frac, b: Frac)
    requires
        fwf(a),
        fwf(b),
    ensures
        fwf(fadd(a, b)),
        fwf(fsub(a, b)),
        fwf(fmul(a, b)),
{
    vstd::arithmetic::mul::lemma_mul_strictly_positive(a.d, b.d);
}

/// Replacing the right operand of an addition by an equal rational gives
/// an equal rational.
pub proof fn lemma_feqv_add_right(a: Frac, b: Frac, c: Frac)
    requires
        fwf(a),
        fwf(b),
        fwf(c),
        feqv(b, c),
    ensures
        feqv(fadd(a, b), fadd(a, c)),
{
    vstd::arithmetic::mul::lemma_mul_is_distributive_add_other_way(
        a.d * c.d,
        a.n * b.d,
        b.n * a.d,
    );
    vstd::arithmetic::mul::lemma_mul_is_distributive_add_other_way(
        a.d * b.d,
        a.n * c.d,
        c.n * a.d,
    );
    assert((a.n * b.d) * (a.d * c.d) == (a.n * c.d) * (a.d * b.d)) by (nonlinear_arith);
    assert((b.n * a.d) * (a.d * c.d) == (b.n * c.d) * (a.d * a.d)) by (nonlinear_arith);
    assert((c.n * a.d) * (a.d * b.d) == (c.n * b.d) * (a.d * a.d)) by (nonlinear_arith);
}

/// Adding `x0 - p0` is the same as subtracting `p0 - x0`.
pub proof fn lemma_add_sub_swap(p: Frac, x0: Frac, p0: Frac)
    requires
        fwf(p),
        fwf(x0),
        fwf(p0),
    ensures
        feqv(fadd(p, fsub(x0, p0)), fsub(p, fsub(p0, x0))),
{
    assert(feqv(fadd(p, fsub(x0, p0)), fsub(p, fsub(p0, x0)))) by (nonlinear_arith)
        requires
            fwf(p),
            fwf(x0),
            fwf(p0),
    ;
}

/// Dividing by a positive rational keeps well-formedness.
pub proof fn lemma_fdiv_wf(a: Frac, b: Frac)
    requires
        fwf(a),
        b.n >= 1,
    ensures
        fwf(fdiv(a, b)),
{
    vstd::arithmetic::mul::lemma_mul_strictly_positive(a.d, b.n);
}

/// Replacing the right operand of a subtraction by an equal rational
/// gives an equal rational.
pub proof fn lemma_feqv_sub_right(a: Frac, b: Frac, c: Frac)
    requires
        fwf(a),
        fwf(b),
        fwf(c),
        feqv(b, c),
    ensures
        feqv(fsub(a, b), fsub(a, c)),
{
    vstd::arithmetic::mul::lemma_mul_is_distributive_sub_other_way(
        a.d * c.d,
        a.n * b.d,
        b.n * a.d,
    );
    vstd::arithmetic::mul::lemma_mul_is_distributive_sub_other_way(
        a.d * b.d,
        a.n * c.d,
        c.n * a.d,
    );
    assert((a.n * b.d) * (a.d * c.d) == (a.n * c.d) * (a.d * b.d)) by (nonlinear_arith);
    assert((b.n * a.d) * (a.d * c.d) == (b.n * c.d) * (a.d * a.d)) by (nonlinear_arith);
    assert((c.n * a.d) * (a.d * b.d) == (c.n * b.d) * (a.d * a.d)) by (nonlinear_arith);
}

/// Replacing the dividend by an equal rational gives an equal quotient.
pub proof fn lemma_feqv_div_left(a: Frac, b: Frac, c: Frac)
    requires
        fwf(a),
        fwf(b),
        c.n >= 1,
        feqv(a, b),
    ensures
        feqv(fdiv(a, c), fdiv(b, c)),
{
    assert((a.n * c.d) * (b.d * c.n) == (a.n * b.d) * (c.d * c.n)) by (nonlinear_arith);
    assert((b.n * c.d) * (a.d * c.n) == (b.n * a.d) * (c.d * c.n)) by (nonlinear_arith);
}

/// Subtracting a difference is adding: `p − (t − m) == (p − t) + m`.
pub proof fn lemma_sub_sub(p: Frac, t: Frac, m: Frac)
    requires
        fwf(p),
        fwf(t),
        fwf(m),
    ensures
        feqv(fsub(p, fsub(t, m)), fadd(fsub(p, t), m)),
{
    vstd::arithmetic::mul::lemma_mul_is_distributive_sub_other_way(p.d, t.n * m.d, m.n * t.d);
    vstd::arithmetic::mul::lemma_mul_is_distributive_sub_other_way(m.d, p.n * t.d, t.n * p.d);
    assert(p.n * (t.d * m.d) == (p.n * t.d) * m.d) by (nonlinear_arith);
    assert((t.n * m.d) * p.d == (t.n * p.d) * m.d) by (nonlinear_arith);
    assert((m.n * t.d) * p.d == m.n * (p.d * t.d)) by (nonlinear_arith);
    assert(p.d * (t.d * m.d) == (p.d * t.d) * m.d) by (nonlinear_arith);
}

/// Gathering a relative step: `x + (e − 1)·x == e·x`.
pub proof fn lemma_factor_gather(e: Frac, x: Frac)
    requires
        fwf(e),
        fwf(x),
    ensures
        feqv(fadd(x, fmul(fsub(e, fint(1)), x)), fmul(e, x)),
{
    let em1 = fsub(e, fint(1));
    assert(em1.n == e.n - e.d);
    assert(em1.d == e.d);
    let l = fadd(x, fmul(em1, x));
    assert(l.n == e.n * (x.n * x.d)) by (nonlinear_arith)
        requires
            l.n == x.n * (em1.d * x.d) + (em1.n * x.n) * x.d,
            em1.n == e.n - e.d,
            em1.d == e.d,
    ;
    assert((e.n * (x.n * x.d)) * (e.d * x.d) == (e.n * x.n) * (x.d * (e.d * x.d)))
        by (nonlinear_arith);
}

/// Scaling by `s2/s` and dividing by `s2` is dividing by `s`.
pub proof fn lemma_div_mul_cancel(pt: Frac, s: Frac, s2: Frac)
    requires
        fwf(pt),
        fwf(s),
        fwf(s2),
        s.n >= 1,
        s2.n >= 1,
    ensures
        feqv(fdiv(fmul(fdiv(s2, s), pt), s2), fdiv(pt, s)),
{
    let e = fdiv(s2, s);
    assert(e.n == s2.n * s.d);
    assert(e.d == s2.d * s.n);
    assert((((s2.n * s.d) * pt.n) * s2.d) * (pt.d * s.n) == (pt.n * s.d) * (((s2.d * s.n) * pt.d)
        * s2.n)) by (nonlinear_arith);
}

/// The rational order is transitive.
pub proof fn lemma_fle_trans(a: Frac, b: Frac, c: Frac)
    requires
        fwf(a),
        fwf(b),
        fwf(c),
        fle(a, b),
        fle(b, c),
    ensures
        fle(a, c),
{
    assert(a.n * c.d <= c.n * a.d) by (nonlinear_arith)
        requires
            a.n * b.d <= b.n * a.d,
            b.n * c.d <= c.n * b.d,
            a.d >= 1,
            b.d >= 1,
            c.d >= 1,
    ;
}

/// An equal rational can replace the left side of an inequality.
pub proof fn lemma_fle_eqv_left(a: Frac, a2: Frac, b: Frac)
    requires
        fwf(a),
        fwf(a2),
        fwf(b),
        feqv(a, a2),
        fle(a, b),
    ensures
        fle(a2, b),
{
    assert(a2.n * b.d <= b.n * a2.d) by (nonlinear_arith)
        requires
            a.n * a2.d == a2.n * a.d,
            a.n * b.d <= b.n * a.d,
            a.d >= 1,
            a2.d >= 1,
            b.d >= 1,
    ;
}

/// An equal rational can replace the right side of an inequality.
pub proof fn lemma_fle_eqv_right(a: Frac, b: Frac, b2: Frac)
    requires
        fwf(a),
        fwf(b),
        fwf(b2),
        feqv(b, b2),
        fle(a, b),
    ensures
        fle(a, b2),
{
    assert(a.n * b2.d <= b2.n * a.d) by (nonlinear_arith)
        requires
            b.n * b2.d == b2.n * b.d,
            a.n * b.d <= b.n * a.d,
            a.d >= 1,
            b.d >= 1,
            b2.d >= 1,
    ;
}

/// A rational equal to a positive one is positive.
pub proof fn lemma_eqv_keeps_positive(a: Frac, b: Frac)
    requires
        fwf(a),
        fwf(b),
        feqv(a, b),
        a.n >= 1,
    ensures
        b.n >= 1,
{
    assert(b.n >= 1) by (nonlinear_arith)
        requires
            a.n * b.d == b.n * a.d,
            a.n >= 1,
            a.d >= 1,
            b.d >= 1,
    ;
}

/// A rational at least a positive one is positive.
pub proof fn lemma_le_keeps_positive(a: Frac, b: Frac)
    requires
        fwf(a),
        fwf(b),
        fle(a, b),
        a.n >= 1,
    ensures
        b.n >= 1,
{
    assert(b.n >= 1) by (nonlinear_arith)
        requires
            a.n * b.d <= b.n * a.d,
            a.n >= 1,
            a.d >= 1,
            b.d >= 1,
    ;
}

/// Clamping lands inside the bounds and returns the value or a bound.
pub proof fn lemma_fclamp_range(x: Frac, lo: Frac, hi: Frac)
    requires
        fwf(x),
        fwf(lo),
        fwf(hi),
        fle(lo, hi),
    ensures
        fwf(fclamp(x, lo, hi)),
        fle(lo, fclamp(x, lo, hi)),
        fle(fclamp(x, lo, hi), hi),
        fclamp(x, lo, hi) == x || fclamp(x, lo, hi) == lo || fclamp(x, lo, hi) == hi,
{
}

/// Euclid's algorithm, matching the specification [`gcd`].
pub fn gcd_exec(a: i128, b: i128) -> (r: i128)
    requires
        0 <= a,
        0 <= b,
        a >= 1 || b >= 1,
    ensures
        r == gcd(a as int, b as int),
        1 <= r,
{
    let mut x: i128 = a;
    let mut y: i128 = b;
    while y != 0
        invariant
            0 <= x,
            0 <= y,
            x >= 1 || y >= 1,
            gcd(x as int, y as int) == gcd(a as int, b as int),
        decreases y,
    {
        proof {
            vstd::arithmetic::div_mod::lemma_mod_division_less_than_divisor(x as int, y as int);
        }
        let t: i128 = x % y;
        x = y;
        y = t;
    }
    proof {
        lemma_gcd_divides(a as int, b as int);
    }
    x
}

/// `next` where it fits in the stored state, otherwise `prev`.
pub fn fit_or_keep(next: &Rat, prev: &Rat) -> (r: Rat)
    ensures
        r@ == fkeep(next@, prev@),
{
    if next.is_bounded() {
        *next
    } else {
        *prev
    }
}

} // verus!

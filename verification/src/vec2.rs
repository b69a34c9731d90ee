//! Pairs of rationals: world positions, translations and device
//! coordinates of the interaction core.

use vstd::prelude::*;

use crate::rational::{
    fadd, fbounded, feqv, fkeep, fmul, freduce, fsub, fwf, in_i128, mul_fits, Frac, Rat,
};

verus! {

/// Mathematical pair of fractions.
pub struct Frac2 {
    pub x: Frac,
    pub y: Frac,
}

pub open spec fn f2wf(a: Frac2) -> bool {
    fwf(a.x) && fwf(a.y)
}

/// Both components denote the same rational values.
pub open spec fn f2eqv(a: Frac2, b: Frac2) -> bool {
    feqv(a.x, b.x) && feqv(a.y, b.y)
}

pub open spec fn f2add(a: Frac2, b: Frac2) -> Frac2 {
    Frac2 { x: fadd(a.x, b.x), y: fadd(a.y, b.y) }
}

pub open spec fn f2sub(a: Frac2, b: Frac2) -> Frac2 {
    Frac2 { x: fsub(a.x, b.x), y: fsub(a.y, b.y) }
}

/// Both components multiplied by the scalar `s`.
pub open spec fn f2scale(s: Frac, a: Frac2) -> Frac2 {
    Frac2 { x: fmul(s, a.x), y: fmul(s, a.y) }
}

pub open spec fn f2bounded(a: Frac2) -> bool {
    fbounded(a.x) && fbounded(a.y)
}

pub open spec fn f2reduce(a: Frac2) -> Frac2 {
    Frac2 { x: freduce(a.x), y: freduce(a.y) }
}

/// `next` where both components can be stored, otherwise `prev`; a pair
/// is kept or replaced as a whole so that a position never mixes an old
/// component with a new one.
pub open spec fn f2keep(next: Frac2, prev: Frac2) -> Frac2 {
    if f2bounded(next) {
        next
    } else {
        prev
    }
}

/// The reduced form of `next` where it fits, otherwise `prev`: how every
/// stored position is updated.
pub open spec fn f2store(next: Frac2, prev: Frac2) -> Frac2 {
    f2keep(f2reduce(next), prev)
}

/// Reducing both components keeps the pair well formed and equal, as
/// rationals, to what it was.
pub proof fn lemma_f2reduce_eqv(v: Frac2)
    requires
        f2wf(v),
    ensures
        f2wf(f2reduce(v)),
        f2eqv(f2reduce(v), v),
{
    crate::rational::lemma_freduce(v.x);
    crate::rational::lemma_freduce(v.y);
}

/// Executable pair of rationals.
#[derive(Clone, Copy, Debug)]
pub struct Vec2r {
    x: Rat,
    y: Rat,
}

impl View for Vec2r {
    type V = Frac2;

    closed spec fn view(&self) -> Frac2 {
        Frac2 { x: self.x@, y: self.y@ }
    }
}

impl Vec2r {
    pub open spec fn wf(&self) -> bool {
        f2wf(self@)
    }

    pub fn new(x: Rat, y: Rat) -> (r: Vec2r)
        ensures
            r@ == (Frac2 { x: x@, y: y@ }),
    {
        Vec2r { x: x, y: y }
    }

    /// Both coordinates given as integers.
    pub fn from_ints(x: i128, y: i128) -> (r: Vec2r)
        ensures
            r@ == (Frac2 { x: crate::rational::fint(x as int), y: crate::rational::fint(y as int) }),
            r.wf(),
    {
        Vec2r { x: Rat::from_int(x), y: Rat::from_int(y) }
    }

    pub fn x(&self) -> (r: Rat)
        ensures
            r@ == self@.x,
    {
        self.x
    }

    pub fn y(&self) -> (r: Rat)
        ensures
            r@ == self@.y,
    {
        self.y
    }

    pub fn add2(&self, other: &Vec2r) -> (r: Vec2r)
        requires
            self.wf(),
            other.wf(),
            mul_fits(self@.x.n, other@.x.d),
            mul_fits(other@.x.n, self@.x.d),
            in_i128(self@.x.n * other@.x.d + other@.x.n * self@.x.d),
            mul_fits(self@.x.d, other@.x.d),
            mul_fits(self@.y.n, other@.y.d),
            mul_fits(other@.y.n, self@.y.d),
            in_i128(self@.y.n * other@.y.d + other@.y.n * self@.y.d),
            mul_fits(self@.y.d, other@.y.d),
        ensures
            r@ == f2add(self@, other@),
            r.wf(),
    {
        Vec2r { x: self.x.add(&other.x), y: self.y.add(&other.y) }
    }

    pub fn sub2(&self, other: &Vec2r) -> (r: Vec2r)
        requires
            self.wf(),
            other.wf(),
            mul_fits(self@.x.n, other@.x.d),
            mul_fits(other@.x.n, self@.x.d),
            in_i128(self@.x.n * other@.x.d - other@.x.n * self@.x.d),
            mul_fits(self@.x.d, other@.x.d),
            mul_fits(self@.y.n, other@.y.d),
            mul_fits(other@.y.n, self@.y.d),
            in_i128(self@.y.n * other@.y.d - other@.y.n * self@.y.d),
            mul_fits(self@.y.d, other@.y.d),
        ensures
            r@ == f2sub(self@, other@),
            r.wf(),
    {
        Vec2r { x: self.x.sub(&other.x), y: self.y.sub(&other.y) }
    }

    pub fn scale2(&self, s: &Rat) -> (r: Vec2r)
        requires
            self.wf(),
            s.wf(),
            mul_fits(s@.n, self@.x.n),
            mul_fits(s@.d, self@.x.d),
            mul_fits(s@.n, self@.y.n),
            mul_fits(s@.d, self@.y.d),
        ensures
            r@ == f2scale(s@, self@),
            r.wf(),
    {
        Vec2r { x: s.mul(&self.x), y: s.mul(&self.y) }
    }

    /// Sum of two stored (bounded) positions; always fits.
    pub fn add_small(&self, other: &Vec2r) -> (r: Vec2r)
        requires
            f2bounded(self@),
            f2bounded(other@),
        ensures
            r@ == f2add(self@, other@),
            r.wf(),
            -0x2000000000000 <= r@.x.n <= 0x2000000000000,
            1 <= r@.x.d <= 0x1000000000000,
            -0x2000000000000 <= r@.y.n <= 0x2000000000000,
            1 <= r@.y.d <= 0x1000000000000,
    {
        proof {
            crate::rational::lemma_abs_mul(self@.x.n, other@.x.d, 0x1000000, 0x1000000);
            crate::rational::lemma_abs_mul(other@.x.n, self@.x.d, 0x1000000, 0x1000000);
            crate::rational::lemma_abs_mul(self@.x.d, other@.x.d, 0x1000000, 0x1000000);
            crate::rational::lemma_abs_mul(self@.y.n, other@.y.d, 0x1000000, 0x1000000);
            crate::rational::lemma_abs_mul(other@.y.n, self@.y.d, 0x1000000, 0x1000000);
            crate::rational::lemma_abs_mul(self@.y.d, other@.y.d, 0x1000000, 0x1000000);
        }
        self.add2(other)
    }

    /// Difference of two stored (bounded) positions; always fits.
    pub fn sub_small(&self, other: &Vec2r) -> (r: Vec2r)
        requires
            f2bounded(self@),
            f2bounded(other@),
        ensures
            r@ == f2sub(self@, other@),
            r.wf(),
            -0x2000000000000 <= r@.x.n <= 0x2000000000000,
            1 <= r@.x.d <= 0x1000000000000,
            -0x2000000000000 <= r@.y.n <= 0x2000000000000,
            1 <= r@.y.d <= 0x1000000000000,
    {
        proof {
            crate::rational::lemma_abs_mul(self@.x.n, other@.x.d, 0x1000000, 0x1000000);
            crate::rational::lemma_abs_mul(other@.x.n, self@.x.d, 0x1000000, 0x1000000);
            crate::rational::lemma_abs_mul(self@.x.d, other@.x.d, 0x1000000, 0x1000000);
            crate::rational::lemma_abs_mul(self@.y.n, other@.y.d, 0x1000000, 0x1000000);
            crate::rational::lemma_abs_mul(other@.y.n, self@.y.d, 0x1000000, 0x1000000);
            crate::rational::lemma_abs_mul(self@.y.d, other@.y.d, 0x1000000, 0x1000000);
        }
        self.sub2(other)
    }

    /// Reduce `next` and store it where it fits, else keep `prev`: the
    /// one way every stored position is updated.
    pub fn store_from(next: &Vec2r, prev: &Vec2r) -> (r: Vec2r)
        requires
            next.wf(),
            in_i128(-next@.x.n),
            in_i128(-next@.y.n),
        ensures
            r@ == f2store(next@, prev@),
            f2wf(prev@) && f2bounded(prev@) ==> f2wf(r@) && f2bounded(r@),
    {
        proof {
            crate::rational::lemma_freduce(next@.x);
            crate::rational::lemma_freduce(next@.y);
        }
        let reduced = next.normalize2();
        Vec2r::fit_or_keep2(&reduced, prev)
    }

    pub fn normalize2(&self) -> (r: Vec2r)
        requires
            self.wf(),
            in_i128(-self@.x.n),
            in_i128(-self@.y.n),
        ensures
            r@ == f2reduce(self@),
            r.wf(),
    {
        proof {
            crate::rational::lemma_freduce(self@.x);
            crate::rational::lemma_freduce(self@.y);
        }
        Vec2r { x: self.x.normalize(), y: self.y.normalize() }
    }

    pub fn is_bounded2(&self) -> (r: bool)
        ensures
            r == f2bounded(self@),
    {
        self.x.is_bounded() && self.y.is_bounded()
    }

    /// `next` where both components fit in the stored state, otherwise
    /// `prev`.
    pub fn fit_or_keep2(next: &Vec2r, prev: &Vec2r) -> (r: Vec2r)
        ensures
            r@ == f2keep(next@, prev@),
    {
        if next.is_bounded2() {
            *next
        } else {
            *prev
        }
    }
}

} // verus!

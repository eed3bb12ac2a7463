//! Fixed-point 3-vectors.
//!
//! The executable type is [`Vec3`]; contracts speak about its shadow, an
//! `(int, int, int)` triple obtained through [`Vec3::s`].  Products of two
//! fixed-point values are rescaled by dividing by `ONE`, written `_q` here;
//! the corresponding spec functions model that division exactly with `sdiv`.

use vstd::prelude::*;

use crate::num::ONE;
use crate::num::abs_v;
use crate::num::div_q;
use crate::num::is_floor_sqrt;
use crate::num::isqrt;
use crate::num::lemma_mul_bound;
use crate::num::lemma_sdiv_bound;
use crate::num::sdiv;
use crate::num::sqrt_v;

verus! {

/// Magnitude cap under which every pairwise vector operation fits in `i64`.
pub const VMAX: i64 = 0x4000_0000;

/// Looser cap for plain sums and differences.
pub const BADD: i64 = 0x2000_0000_0000_0000;

#[derive(Clone, Copy, Debug, PartialEq, Eq, Structural)]
pub struct Vec3 {
    pub x: i64,
    pub y: i64,
    pub z: i64,
}

/// Componentwise magnitude bound.
pub open spec fn vbound(a: (int, int, int), m: int) -> bool {
    abs_v(a.0) <= m && abs_v(a.1) <= m && abs_v(a.2) <= m
}

pub open spec fn spec_add(a: (int, int, int), b: (int, int, int)) -> (int, int, int) {
    (a.0 + b.0, a.1 + b.1, a.2 + b.2)
}

pub open spec fn spec_sub(a: (int, int, int), b: (int, int, int)) -> (int, int, int) {
    (a.0 - b.0, a.1 - b.1, a.2 - b.2)
}

pub open spec fn spec_neg(a: (int, int, int)) -> (int, int, int) {
    (-a.0, -a.1, -a.2)
}

pub open spec fn spec_dot(a: (int, int, int), b: (int, int, int)) -> int {
    a.0 * b.0 + a.1 * b.1 + a.2 * b.2
}

/// Cross product of two fixed-point vectors, rescaled back by `ONE`.
pub open spec fn spec_cross_q(a: (int, int, int), b: (int, int, int)) -> (int, int, int) {
    (
        sdiv(a.1 * b.2 - a.2 * b.1, ONE as int),
        sdiv(a.2 * b.0 - a.0 * b.2, ONE as int),
        sdiv(a.0 * b.1 - a.1 * b.0, ONE as int),
    )
}

/// Vector scaled by a fixed-point scalar, rescaled back by `ONE`.
pub open spec fn spec_scale_q(a: (int, int, int), s: int) -> (int, int, int) {
    (sdiv(a.0 * s, ONE as int), sdiv(a.1 * s, ONE as int), sdiv(a.2 * s, ONE as int))
}

/// Euclidean length, rounded down to an integer of the same (raw) scale.
pub open spec fn spec_len(a: (int, int, int)) -> int {
    sqrt_v(spec_dot(a, a))
}

/// Unit vector (components scaled by `ONE`) along `a`, or the fallback `f`
/// when `a` is the zero vector.
pub open spec fn spec_norm_or(a: (int, int, int), f: (int, int, int)) -> (int, int, int) {
    if spec_dot(a, a) == 0 {
        f
    } else {
        (
            sdiv(a.0 * ONE, spec_len(a)),
            sdiv(a.1 * ONE, spec_len(a)),
            sdiv(a.2 * ONE, spec_len(a)),
        )
    }
}

/// A dot product of bounded vectors is bounded by three times the product
/// of the bounds.
pub proof fn lemma_dot_bound(a: (int, int, int), b: (int, int, int), aa: int, bb: int)
    requires
        vbound(a, aa),
        vbound(b, bb),
    ensures
        abs_v(spec_dot(a, b)) <= 3 * (aa * bb),
{
    crate::num::lemma_mul_bound(a.0, b.0, aa, bb);
    crate::num::lemma_mul_bound(a.1, b.1, aa, bb);
    crate::num::lemma_mul_bound(a.2, b.2, aa, bb);
}

/// The rescaled cross product of two unit-bounded vectors is small.
pub proof fn lemma_cross_bound(u: (int, int, int), v: (int, int, int))
    requires
        vbound(u, 0x1_0000),
        vbound(v, 0x1_0000),
    ensures
        vbound(spec_cross_q(u, v), 0x2_0000),
{
    crate::num::lemma_mul_bound(u.1, v.2, 0x1_0000, 0x1_0000);
    crate::num::lemma_mul_bound(u.2, v.1, 0x1_0000, 0x1_0000);
    crate::num::lemma_mul_bound(u.2, v.0, 0x1_0000, 0x1_0000);
    crate::num::lemma_mul_bound(u.0, v.2, 0x1_0000, 0x1_0000);
    crate::num::lemma_mul_bound(u.0, v.1, 0x1_0000, 0x1_0000);
    crate::num::lemma_mul_bound(u.1, v.0, 0x1_0000, 0x1_0000);
    lemma_sdiv_le_factor(u.1 * v.2 - u.2 * v.1, 0x1_0000, 0x2_0000);
    lemma_sdiv_le_factor(u.2 * v.0 - u.0 * v.2, 0x1_0000, 0x2_0000);
    lemma_sdiv_le_factor(u.0 * v.1 - u.1 * v.0, 0x1_0000, 0x2_0000);
}

/// A vector's squared length is nonnegative.
pub proof fn lemma_dot_self_nonneg(a: (int, int, int))
    by (nonlinear_arith)
    ensures
        spec_dot(a, a) >= 0,
        spec_dot(a, a) == 0 ==> a.0 == 0 && a.1 == 0 && a.2 == 0,
{
}

/// No component exceeds the rounded-down length.
pub proof fn lemma_component_le_len(a: (int, int, int))
    requires
        vbound(a, VMAX as int),
    ensures
        vbound(a, spec_len(a)),
{
    lemma_dot_self_nonneg(a);
    crate::num::lemma_sqrt_exists(spec_dot(a, a));
    let l = spec_len(a);
    assert(vbound(a, l)) by (nonlinear_arith)
        requires
            is_floor_sqrt(spec_dot(a, a), l),
            spec_dot(a, a) >= 0,
    {
    }
}

/// Dividing something no larger than `l * c` by `l` yields at most `c`.
pub proof fn lemma_sdiv_le_factor(n: int, l: int, c: int)
    requires
        l >= 1,
        c >= 0,
        abs_v(n) <= l * c,
    ensures
        abs_v(sdiv(n, l)) <= c,
{
    lemma_sdiv_bound(n, l);
    vstd::arithmetic::div_mod::lemma_div_is_ordered(abs_v(n), l * c, l);
    vstd::arithmetic::div_mod::lemma_div_multiples_vanish(c, l);
    assert(abs_v(sdiv(n, l)) == abs_v(n) / l);
    assert(l * c == c * l) by (nonlinear_arith);
}

impl Vec3 {
    /// The mathematical shadow of this vector.
    pub open spec fn s(self) -> (int, int, int) {
        (self.x as int, self.y as int, self.z as int)
    }

    pub open spec fn bounded(self, m: int) -> bool {
        vbound(self.s(), m)
    }

    pub fn new(x: i64, y: i64, z: i64) -> (r: Vec3)
        ensures
            r.s() == (x as int, y as int, z as int),
    {
        Vec3 { x, y, z }
    }

    pub fn zero() -> (r: Vec3)
        ensures
            r.s() == (0int, 0int, 0int),
    {
        Vec3 { x: 0, y: 0, z: 0 }
    }

    pub fn vadd(&self, o: &Vec3) -> (r: Vec3)
        requires
            self.bounded(BADD as int),
            o.bounded(BADD as int),
        ensures
            r.s() == spec_add(self.s(), o.s()),
    {
        Vec3 { x: self.x + o.x, y: self.y + o.y, z: self.z + o.z }
    }

    pub fn vsub(&self, o: &Vec3) -> (r: Vec3)
        requires
            self.bounded(BADD as int),
            o.bounded(BADD as int),
        ensures
            r.s() == spec_sub(self.s(), o.s()),
    {
        Vec3 { x: self.x - o.x, y: self.y - o.y, z: self.z - o.z }
    }

    pub fn vneg(&self) -> (r: Vec3)
        requires
            self.bounded(i64::MAX as int),
        ensures
            r.s() == spec_neg(self.s()),
    {
        Vec3 { x: -self.x, y: -self.y, z: -self.z }
    }

    pub fn vdot(&self, o: &Vec3) -> (r: i64)
        requires
            self.bounded(VMAX as int),
            o.bounded(VMAX as int),
        ensures
            r == spec_dot(self.s(), o.s()),
    {
        proof {
            lemma_mul_bound(self.x as int, o.x as int, VMAX as int, VMAX as int);
            lemma_mul_bound(self.y as int, o.y as int, VMAX as int, VMAX as int);
            lemma_mul_bound(self.z as int, o.z as int, VMAX as int, VMAX as int);
        }
        self.x * o.x + self.y * o.y + self.z * o.z
    }

    pub fn vcross_q(&self, o: &Vec3) -> (r: Vec3)
        requires
            self.bounded(VMAX as int),
            o.bounded(VMAX as int),
        ensures
            r.s() == spec_cross_q(self.s(), o.s()),
    {
        proof {
            lemma_mul_bound(self.y as int, o.z as int, VMAX as int, VMAX as int);
            lemma_mul_bound(self.z as int, o.y as int, VMAX as int, VMAX as int);
            lemma_mul_bound(self.z as int, o.x as int, VMAX as int, VMAX as int);
            lemma_mul_bound(self.x as int, o.z as int, VMAX as int, VMAX as int);
            lemma_mul_bound(self.x as int, o.y as int, VMAX as int, VMAX as int);
            lemma_mul_bound(self.y as int, o.x as int, VMAX as int, VMAX as int);
        }
        Vec3 {
            x: div_q(self.y * o.z - self.z * o.y, ONE),
            y: div_q(self.z * o.x - self.x * o.z, ONE),
            z: div_q(self.x * o.y - self.y * o.x, ONE),
        }
    }

    pub fn vscale_q(&self, s: i64) -> (r: Vec3)
        requires
            self.bounded(VMAX as int),
            abs_v(s as int) <= 0x1_0000_0000,
        ensures
            r.s() == spec_scale_q(self.s(), s as int),
    {
        proof {
            lemma_mul_bound(self.x as int, s as int, 0x4000_0000, 0x1_0000_0000);
            lemma_mul_bound(self.y as int, s as int, 0x4000_0000, 0x1_0000_0000);
            lemma_mul_bound(self.z as int, s as int, 0x4000_0000, 0x1_0000_0000);
        }
        Vec3 { x: div_q(self.x * s, ONE), y: div_q(self.y * s, ONE), z: div_q(self.z * s, ONE) }
    }

    /// Squared length, exact.
    pub fn vlen_sq(&self) -> (r: i64)
        requires
            self.bounded(VMAX as int),
        ensures
            r == spec_dot(self.s(), self.s()),
            r >= 0,
    {
        proof {
            lemma_dot_self_nonneg(self.s());
        }
        self.vdot(self)
    }

    /// Rounded-down length.
    pub fn vlen(&self) -> (r: i64)
        requires
            self.bounded(VMAX as int),
        ensures
            r == spec_len(self.s()),
            r >= 0,
    {
        let sq: i64 = self.vlen_sq();
        isqrt(sq)
    }

    /// Normalized direction (components scaled by `ONE`), or the fallback
    /// `f` for the zero vector.
    pub fn vnorm_or(&self, f: &Vec3) -> (r: Vec3)
        requires
            self.bounded(VMAX as int),
            f.bounded(ONE as int),
        ensures
            r.s() == spec_norm_or(self.s(), f.s()),
            r.bounded(ONE as int),
    {
        let sq: i64 = self.vlen_sq();
        if sq == 0 {
            *f
        } else {
            let l: i64 = isqrt(sq);
            proof {
                assert(l >= 1) by (nonlinear_arith)
                    requires
                        0 <= l,
                        1 <= sq,
                        sq < (l + 1) * (l + 1),
                {
                }
            }
            proof {
                lemma_component_le_len(self.s());
                lemma_mul_bound(self.x as int, ONE as int, VMAX as int, ONE as int);
                lemma_mul_bound(self.y as int, ONE as int, VMAX as int, ONE as int);
                lemma_mul_bound(self.z as int, ONE as int, VMAX as int, ONE as int);
                lemma_sdiv_le_factor(self.x as int * ONE, l as int, ONE as int);
                lemma_sdiv_le_factor(self.y as int * ONE, l as int, ONE as int);
                lemma_sdiv_le_factor(self.z as int * ONE, l as int, ONE as int);
            }
            Vec3 {
                x: div_q(self.x * ONE, l),
                y: div_q(self.y * ONE, l),
                z: div_q(self.z * ONE, l),
            }
        }
    }
}

} // verus!

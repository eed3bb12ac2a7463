//! Fixed-point sine and cosine of fixed-point degrees.
//!
//! The engine only needs a deterministic, fully specified rotation; it uses
//! Bhaskara's rational approximation `sin x ~= 4x(180-x) / (40500 - x(180-x))`
//! for `x` in degrees, which is exact at 0, 90 and 180 degrees and within
//! 0.0017 everywhere else.  Angles and results are scaled by `ONE`.

use vstd::prelude::*;

use crate::num::ONE;
use crate::num::abs_v;
use crate::num::div_q;
use crate::num::sdiv;
use crate::vec3::lemma_sdiv_le_factor;

verus! {

/// One full turn, in raw angle units.
pub const CIRCLE: i64 = 360 * ONE;

/// Largest angle magnitude (raw) the engine accepts.
pub const ANGLE_MAX: i64 = 0x100_0000_0000;

/// Angle reduced to `[0, CIRCLE)`, Euclidean.
pub open spec fn spec_wrap(d: int) -> int {
    d % (CIRCLE as int)
}

/// Bhaskara's sine on the first half turn, `x` in `[0, 180 * ONE]`.
pub open spec fn spec_sin_half(x: int) -> int {
    let p = (x * (180 * ONE - x)) / (ONE as int);
    sdiv(4 * p * ONE, 40500 * ONE - p)
}

/// Sine of a raw fixed-point degree angle.
#[verifier::opaque]
pub open spec fn spec_sin(d: int) -> int {
    let r = spec_wrap(d);
    if r <= 180 * ONE {
        spec_sin_half(r)
    } else {
        -spec_sin_half(r - 180 * ONE)
    }
}

/// Cosine of a raw fixed-point degree angle.
#[verifier::opaque]
pub open spec fn spec_cos(d: int) -> int {
    spec_sin(d + 90 * ONE)
}

/// Reduce an angle to `[0, CIRCLE)`.
fn wrap_angle(d: i64) -> (r: i64)
    requires
        abs_v(d as int) <= ANGLE_MAX as int,
    ensures
        r == spec_wrap(d as int),
        0 <= r < CIRCLE,
{
    let t: i64 = d % CIRCLE;
    if t < 0 {
        t + CIRCLE
    } else {
        t
    }
}

/// Sine on `[0, 180 * ONE]`, by Bhaskara's formula.
fn sin_half(x: i64) -> (r: i64)
    requires
        0 <= x <= 180 * ONE,
    ensures
        r == spec_sin_half(x as int),
        0 <= r <= ONE,
{
    proof {
        assert(x * (180 * ONE - x) >= 0 && x * (180 * ONE - x) <= 8100 * ONE * ONE)
            by (nonlinear_arith)
            requires
                0 <= x <= 180 * ONE,
                ONE == 65536,
        {
        }
    }
    let p: i64 = (x * (180 * ONE - x)) / ONE;
    proof {
        crate::num::lemma_div_mono(x as int * (180 * ONE - x as int), 8100 * ONE * ONE, ONE as int);
        crate::num::lemma_sdiv_bound(x as int * (180 * ONE - x as int), ONE as int);
        vstd::arithmetic::div_mod::lemma_div_pos_is_pos(
            x as int * (180 * ONE - x as int),
            ONE as int,
        );
        vstd::arithmetic::div_mod::lemma_div_multiples_vanish(8100 * ONE, ONE as int);
        assert(8100 * ONE * ONE == (ONE as int) * (8100 * ONE));
    }
    let num: i64 = 4 * p * ONE;
    let den: i64 = 40500 * ONE - p;
    proof {
        vstd::arithmetic::div_mod::lemma_div_is_ordered(
            4 * p * ONE,
            (40500 * ONE - p as int) * ONE,
            40500 * ONE - p as int,
        );
        vstd::arithmetic::div_mod::lemma_div_multiples_vanish(ONE as int, 40500 * ONE - p as int);
    }
    num / den
}

/// Sine of a raw fixed-point degree angle.
pub fn sin_q(d: i64) -> (r: i64)
    requires
        abs_v(d as int) <= ANGLE_MAX as int,
    ensures
        r == spec_sin(d as int),
        abs_v(r as int) <= ONE as int,
{
    proof {
        reveal(spec_sin);
    }
    let w: i64 = wrap_angle(d);
    if w <= 180 * ONE {
        sin_half(w)
    } else {
        -sin_half(w - 180 * ONE)
    }
}

/// Cosine of a raw fixed-point degree angle.
pub fn cos_q(d: i64) -> (r: i64)
    requires
        abs_v(d as int) + 90 * ONE <= ANGLE_MAX as int,
    ensures
        r == spec_cos(d as int),
        abs_v(r as int) <= ONE as int,
{
    proof {
        reveal(spec_cos);
    }
    sin_q(d + 90 * ONE)
}

} // verus!

//! Fixed-point scalar arithmetic.
//!
//! Every quantity in the engine is a signed 64-bit integer holding a real
//! value scaled by `ONE`, so one world unit is `ONE` raw units.  All
//! executable arithmetic is exact integer arithmetic; contracts mirror it
//! over `int`, with `sdiv` standing for the machine's truncating division.

use vstd::prelude::*;

verus! {

/// Raw representation of one world unit.
pub const ONE: i64 = 65536;

/// Largest coordinate magnitude (raw) a well-formed shape may carry.
/// Keeps every intermediate product of the engine inside `i64`.
pub const MAX_COORD: i64 = 0x800_0000;

/// Mathematical absolute value.
pub open spec fn abs_v(a: int) -> int {
    if a >= 0 {
        a
    } else {
        -a
    }
}

/// Truncating (round-toward-zero) division, the semantics of `/` on `i64`.
/// Only used with positive divisors.
pub open spec fn sdiv(a: int, b: int) -> int {
    if a >= 0 {
        a / b
    } else {
        -((-a) / b)
    }
}

/// Fixed-point product: multiply two raw values and rescale by `ONE`.
pub open spec fn mulq(a: int, b: int) -> int {
    sdiv(a * b, ONE as int)
}

/// Product bound: factors bounded in magnitude bound the product.
pub proof fn lemma_mul_bound(a: int, b: int, aa: int, bb: int)
    by (nonlinear_arith)
    requires
        abs_v(a) <= aa,
        abs_v(b) <= bb,
    ensures
        -(aa * bb) <= a * b <= aa * bb,
{
}

/// Truncating division shrinks magnitude: `|a / b| <= |a|` for `b >= 1`.
pub proof fn lemma_sdiv_bound(a: int, b: int)
    requires
        b >= 1,
    ensures
        abs_v(sdiv(a, b)) <= abs_v(a),
        abs_v(sdiv(a, b)) * b <= abs_v(a),
{
    let m = abs_v(a);
    vstd::arithmetic::div_mod::lemma_fundamental_div_mod(m, b);
    vstd::arithmetic::div_mod::lemma_div_pos_is_pos(m, b);
    assert(m / b <= m && (m / b) * b <= m) by (nonlinear_arith)
        requires
            b >= 1,
            m >= 0,
            m / b >= 0,
            b * (m / b) + m % b == m,
            0 <= m % b,
    {
    }
    assert(abs_v(sdiv(a, b)) == m / b);
}

/// Division is monotone in the dividend (for positive divisors, spec `/`).
pub proof fn lemma_div_mono(a: int, b: int, d: int)
    requires
        a <= b,
        d >= 1,
    ensures
        a / d <= b / d,
{
    vstd::arithmetic::div_mod::lemma_div_is_ordered(a, b, d);
}

/// `r` is the floor of the square root of `n`.
pub open spec fn is_floor_sqrt(n: int, r: int) -> bool {
    0 <= r && r * r <= n && n < (r + 1) * (r + 1)
}

/// The floor square root, as a mathematical function.
pub open spec fn sqrt_v(n: int) -> int {
    choose|r: int| is_floor_sqrt(n, r)
}

/// Every nonnegative integer has a floor square root.
pub proof fn lemma_sqrt_exists(n: int)
    requires
        n >= 0,
    ensures
        is_floor_sqrt(n, sqrt_v(n)),
    decreases n,
{
    if n == 0 {
        assert(is_floor_sqrt(0, 0));
    } else {
        lemma_sqrt_exists(n - 1);
        let s = sqrt_v(n - 1);
        if (s + 1) * (s + 1) <= n {
            assert(is_floor_sqrt(n, s + 1)) by (nonlinear_arith)
                requires
                    is_floor_sqrt(n - 1, s),
                    (s + 1) * (s + 1) <= n,
            {
            }
        } else {
            assert(is_floor_sqrt(n, s));
        }
    }
    assert(exists|r: int| is_floor_sqrt(n, r));
}

/// The floor square root is unique.
pub proof fn lemma_sqrt_unique(n: int, r: int)
    requires
        n >= 0,
        is_floor_sqrt(n, r),
    ensures
        r == sqrt_v(n),
{
    lemma_sqrt_exists(n);
    let s = sqrt_v(n);
    assert(r == s) by (nonlinear_arith)
        requires
            is_floor_sqrt(n, r),
            is_floor_sqrt(n, s),
    {
    }
}

/// Truncating quotient of two machine words.
pub fn div_q(a: i64, b: i64) -> (r: i64)
    requires
        1 <= b,
        a != i64::MIN,
    ensures
        r == sdiv(a as int, b as int),
        abs_v(r as int) <= abs_v(a as int),
{
    proof {
        lemma_sdiv_bound(a as int, b as int);
    }
    a / b
}

/// Absolute value of a machine word.
pub fn abs_q(a: i64) -> (r: i64)
    requires
        a != i64::MIN,
    ensures
        r == abs_v(a as int),
{
    if a < 0 {
        -a
    } else {
        a
    }
}

/// Floor square root of a nonnegative machine word.
pub fn isqrt(n: i64) -> (r: i64)
    requires
        0 <= n,
    ensures
        0 <= r <= 3037000499,
        r * r <= n,
        n < (r + 1) * (r + 1),
        r == sqrt_v(n as int),
{
    let mut lo: i64 = 0;
    let mut hi: i64 = 3037000500;
    proof {
        assert((3037000500 as int) * (3037000500 as int) > n);
    }
    while lo + 1 < hi
        invariant
            0 <= lo < hi <= 3037000500,
            lo * lo <= n,
            n < hi * hi,
        decreases hi - lo,
    {
        let mid: i64 = lo + (hi - lo) / 2;
        proof {
            assert(lo < mid < hi);
            lemma_mul_bound(mid as int, mid as int, 3037000499, 3037000499);
        }
        if mid * mid <= n {
            lo = mid;
        } else {
            hi = mid;
        }
    }
    proof {
        lemma_sqrt_unique(n as int, lo as int);
    }
    lo
}

} // verus!

//! Engine-level laws.
//!
//! The separation criteria themselves (no overlap gives `None`, overlap
//! gives `Some`) are part of each test's contract; this module states the
//! properties that relate several calls: swapping the argument order
//! negates the returned MTV, and applying the returned MTV once resolves
//! the overlap (exactly along coordinate axes and box faces, and up to a
//! few raw units of rounding in general).

use vstd::prelude::*;

use crate::collision::sat_cross;
use crate::collision::sat_face;
use crate::collision::sep_cross;
use crate::collision::spec_axes;
use crate::collision::spec_cand_cross;
use crate::collision::spec_center_dist_sq;
use crate::collision::spec_closest;
use crate::collision::spec_orient;
use crate::collision::spec_overlap;
use crate::collision::spec_rect_rect;
use crate::collision::spec_rect_sphere;
use crate::collision::spec_sat_state;
use crate::collision::spec_separated;
use crate::collision::spec_sphere_rect;
use crate::collision::spec_sphere_sphere;
use crate::num::ONE;
use crate::num::abs_v;
use crate::num::sdiv;
use crate::shapes::Rectangle;
use crate::shapes::Sphere;
use crate::vec3::spec_dot;
use crate::vec3::spec_neg;
use crate::vec3::spec_norm_or;
use crate::vec3::spec_scale_q;
use crate::vec3::spec_sub;

verus! {

/// Negation of an optional MTV.
pub open spec fn opt_neg(o: Option<(int, int, int)>) -> Option<(int, int, int)> {
    match o {
        Some(v) => Some(spec_neg(v)),
        None => None,
    }
}

/// Negation distributes into a product.
proof fn lemma_neg_mul(x: int, y: int)
    by (nonlinear_arith)
    ensures
        (-x) * y == -(x * y),
{
}

/// Truncating division commutes with negating the dividend.
proof fn lemma_sdiv_neg(a: int, b: int)
    requires
        b >= 1,
    ensures
        sdiv(-a, b) == -sdiv(a, b),
{
    vstd::arithmetic::div_mod::lemma_div_of0(b);
}

/// A vector and its negation have the same squared length.
proof fn lemma_dot_neg(v: (int, int, int))
    by (nonlinear_arith)
    ensures
        spec_dot(spec_neg(v), spec_neg(v)) == spec_dot(v, v),
{
}

/// Negating the input negates the normalized direction (when a direction
/// is defined, so the fallback is not taken).
proof fn lemma_norm_neg(v: (int, int, int), f: (int, int, int))
    requires
        v != (0int, 0int, 0int),
    ensures
        spec_norm_or(spec_neg(v), f) == spec_neg(spec_norm_or(v, f)),
{
    lemma_dot_neg(v);
    crate::vec3::lemma_dot_self_nonneg(v);
    lemma_neg_mul(v.0, ONE as int);
    lemma_neg_mul(v.1, ONE as int);
    lemma_neg_mul(v.2, ONE as int);
    let l = crate::vec3::spec_len(v);
    crate::num::lemma_sqrt_exists(spec_dot(v, v));
    assert(l >= 1) by (nonlinear_arith)
        requires
            crate::num::is_floor_sqrt(spec_dot(v, v), l),
            spec_dot(v, v) >= 1,
    {
    }
    lemma_sdiv_neg(v.0 * ONE, l);
    lemma_sdiv_neg(v.1 * ONE, l);
    lemma_sdiv_neg(v.2 * ONE, l);
}

/// Negating the vector negates its fixed-point scaling.
proof fn lemma_scale_neg(v: (int, int, int), s: int)
    ensures
        spec_scale_q(spec_neg(v), s) == spec_neg(spec_scale_q(v, s)),
{
    lemma_neg_mul(v.0, s);
    lemma_neg_mul(v.1, s);
    lemma_neg_mul(v.2, s);
    lemma_sdiv_neg(v.0 * s, ONE as int);
    lemma_sdiv_neg(v.1 * s, ONE as int);
    lemma_sdiv_neg(v.2 * s, ONE as int);
}

/// A dot product with a negated second argument flips sign.
proof fn lemma_dot_neg_right(u: (int, int, int), v: (int, int, int))
    by (nonlinear_arith)
    ensures
        spec_dot(u, spec_neg(v)) == -spec_dot(u, v),
{
}

/// The projection overlap reads the two boxes symmetrically.
proof fn lemma_overlap_swap(a: Rectangle, b: Rectangle, axis: (int, int, int))
    ensures
        spec_overlap(b, a, axis) == spec_overlap(a, b, axis),
{
    reveal(spec_overlap);
}

/// The projection overlap does not depend on the axis's sign.
proof fn lemma_overlap_neg(a: Rectangle, b: Rectangle, axis: (int, int, int))
    ensures
        spec_overlap(a, b, spec_neg(axis)) == spec_overlap(a, b, axis),
{
    reveal(spec_overlap);
    let aa = spec_axes(a);
    let bb = spec_axes(b);
    lemma_dot_neg_right(aa.0, axis);
    lemma_dot_neg_right(aa.1, axis);
    lemma_dot_neg_right(aa.2, axis);
    lemma_dot_neg_right(bb.0, axis);
    lemma_dot_neg_right(bb.1, axis);
    lemma_dot_neg_right(bb.2, axis);
    lemma_dot_neg_right(a.position.s(), axis);
    lemma_dot_neg_right(b.position.s(), axis);
    lemma_sdiv_neg(spec_dot(a.position.s(), axis), ONE as int);
    lemma_sdiv_neg(spec_dot(b.position.s(), axis), ONE as int);
}

/// Swapping the source axes negates a cross candidate (or leaves both
/// orders without a candidate).
proof fn lemma_cand_cross_swap(u: (int, int, int), v: (int, int, int))
    ensures
        crate::collision::spec_cand_cross(u, v) is None <==> spec_cand_cross(v, u) is None,
        spec_cand_cross(u, v) is Some ==> spec_cand_cross(v, u) == Some(
            spec_neg(spec_cand_cross(u, v).unwrap()),
        ),
{
    reveal(spec_cand_cross);
    let c = crate::vec3::spec_cross_q(u, v);
    let c2 = crate::vec3::spec_cross_q(v, u);
    assert(v.1 * u.2 - v.2 * u.1 == -(u.1 * v.2 - u.2 * v.1)) by (nonlinear_arith);
    assert(v.2 * u.0 - v.0 * u.2 == -(u.2 * v.0 - u.0 * v.2)) by (nonlinear_arith);
    assert(v.0 * u.1 - v.1 * u.0 == -(u.0 * v.1 - u.1 * v.0)) by (nonlinear_arith);
    lemma_sdiv_neg(u.1 * v.2 - u.2 * v.1, ONE as int);
    lemma_sdiv_neg(u.2 * v.0 - u.0 * v.2, ONE as int);
    lemma_sdiv_neg(u.0 * v.1 - u.1 * v.0, ONE as int);
    assert(c2 == spec_neg(c));
    lemma_dot_neg(c);
    if spec_dot(c, c) != 0 {
        crate::vec3::lemma_dot_self_nonneg(c);
        lemma_norm_neg(c, crate::collision::unit_x());
    }
}

/// A swapped cross pair separates iff the unswapped pair does.
proof fn lemma_sep_cross_swap(a: Rectangle, b: Rectangle, u: (int, int, int), v: (int, int, int))
    ensures
        sep_cross(b, a, v, u) == sep_cross(a, b, u, v),
{
    lemma_cand_cross_swap(u, v);
    if spec_cand_cross(u, v) is Some {
        let ax = spec_cand_cross(u, v).unwrap();
        lemma_overlap_swap(a, b, spec_neg(ax));
        lemma_overlap_neg(a, b, ax);
    }
}

/// Law: whether the boxes are separated does not depend on the argument
/// order, so the box-box test returns `None` for one order iff it does
/// for the other.
pub proof fn lemma_rect_rect_separation_symmetry(a: Rectangle, b: Rectangle)
    ensures
        spec_separated(b, a) == spec_separated(a, b),
{
    let aa = spec_axes(a);
    let bb = spec_axes(b);
    lemma_overlap_swap(a, b, aa.0);
    lemma_overlap_swap(a, b, aa.1);
    lemma_overlap_swap(a, b, aa.2);
    lemma_overlap_swap(a, b, bb.0);
    lemma_overlap_swap(a, b, bb.1);
    lemma_overlap_swap(a, b, bb.2);
    lemma_sep_cross_swap(a, b, aa.0, bb.0);
    lemma_sep_cross_swap(a, b, aa.0, bb.1);
    lemma_sep_cross_swap(a, b, aa.0, bb.2);
    lemma_sep_cross_swap(a, b, aa.1, bb.0);
    lemma_sep_cross_swap(a, b, aa.1, bb.1);
    lemma_sep_cross_swap(a, b, aa.1, bb.2);
    lemma_sep_cross_swap(a, b, aa.2, bb.0);
    lemma_sep_cross_swap(a, b, aa.2, bb.1);
    lemma_sep_cross_swap(a, b, aa.2, bb.2);
}

/// A dot product with a negated first argument flips sign.
proof fn lemma_dot_neg_left(u: (int, int, int), v: (int, int, int))
    by (nonlinear_arith)
    ensures
        spec_dot(spec_neg(u), v) == -spec_dot(u, v),
{
}

/// When the centers are not perpendicular to the axis, orienting ignores
/// the axis's own sign.
proof fn lemma_orient_canon(cd: (int, int, int), w: (int, int, int))
    requires
        spec_dot(cd, w) != 0,
    ensures
        spec_orient(cd, spec_neg(w)) == spec_orient(cd, w),
{
    lemma_dot_neg_right(cd, w);
    assert(spec_neg(spec_neg(w)) == w);
}

/// Reversing the center difference negates the oriented axis.
proof fn lemma_orient_flip(cd: (int, int, int), w: (int, int, int))
    requires
        spec_dot(cd, w) != 0,
    ensures
        spec_orient(spec_neg(cd), w) == spec_neg(spec_orient(cd, w)),
{
    lemma_dot_neg_left(cd, w);
}

/// The overlap is symmetric in the boxes, for every axis.
proof fn lemma_overlap_swap_all(a: Rectangle, b: Rectangle)
    ensures
        forall|axis: (int, int, int)|
            #[trigger] spec_overlap(b, a, axis) == spec_overlap(a, b, axis),
{
    assert forall|axis: (int, int, int)|
        #[trigger] spec_overlap(b, a, axis) == spec_overlap(a, b, axis) by {
        lemma_overlap_swap(a, b, axis);
    }
}

/// The overlap ignores the axis's sign, for every axis.
proof fn lemma_overlap_neg_all(a: Rectangle, b: Rectangle)
    ensures
        forall|axis: (int, int, int)|
            #[trigger] spec_overlap(a, b, spec_neg(axis)) == spec_overlap(a, b, axis),
{
    assert forall|axis: (int, int, int)|
        #[trigger] spec_overlap(a, b, spec_neg(axis)) == spec_overlap(a, b, axis) by {
        lemma_overlap_neg(a, b, axis);
    }
}

/// A candidate either is the distinguished axis `w` (up to sign) or
/// overlaps strictly more than `m`.
pub open spec fn tied_ok(
    a: Rectangle,
    b: Rectangle,
    w: (int, int, int),
    m: int,
    c: Option<(int, int, int)>,
) -> bool {
    match c {
        None => true,
        Some(x) => x == w || x == spec_neg(w) || spec_overlap(a, b, x) > m,
    }
}

/// The candidate holds the distinguished axis, up to sign.
pub open spec fn holds_axis(w: (int, int, int), c: Option<(int, int, int)>) -> bool {
    c == Some(w) || c == Some(spec_neg(w))
}

/// `w` is the unique axis of least overlap `m` among the candidates of
/// the ordered pair, up to sign: some candidate is `w` (or `-w`), and any
/// candidate that is neither overlaps strictly more.
pub open spec fn unique_min_axis(a: Rectangle, b: Rectangle, w: (int, int, int), m: int) -> bool {
    let aa = spec_axes(a);
    let bb = spec_axes(b);
    &&& spec_overlap(a, b, w) == m
    &&& m < 0x7fff_ffff_ffff_ffff
    &&& tied_ok(a, b, w, m, Some(aa.0))
    &&& tied_ok(a, b, w, m, Some(aa.1))
    &&& tied_ok(a, b, w, m, Some(aa.2))
    &&& tied_ok(a, b, w, m, Some(bb.0))
    &&& tied_ok(a, b, w, m, Some(bb.1))
    &&& tied_ok(a, b, w, m, Some(bb.2))
    &&& tied_ok(a, b, w, m, spec_cand_cross(aa.0, bb.0))
    &&& tied_ok(a, b, w, m, spec_cand_cross(aa.0, bb.1))
    &&& tied_ok(a, b, w, m, spec_cand_cross(aa.0, bb.2))
    &&& tied_ok(a, b, w, m, spec_cand_cross(aa.1, bb.0))
    &&& tied_ok(a, b, w, m, spec_cand_cross(aa.1, bb.1))
    &&& tied_ok(a, b, w, m, spec_cand_cross(aa.1, bb.2))
    &&& tied_ok(a, b, w, m, spec_cand_cross(aa.2, bb.0))
    &&& tied_ok(a, b, w, m, spec_cand_cross(aa.2, bb.1))
    &&& tied_ok(a, b, w, m, spec_cand_cross(aa.2, bb.2))
    &&& {
        ||| holds_axis(w, Some(aa.0))
        ||| holds_axis(w, Some(aa.1))
        ||| holds_axis(w, Some(aa.2))
        ||| holds_axis(w, Some(bb.0))
        ||| holds_axis(w, Some(bb.1))
        ||| holds_axis(w, Some(bb.2))
        ||| holds_axis(w, spec_cand_cross(aa.0, bb.0))
        ||| holds_axis(w, spec_cand_cross(aa.0, bb.1))
        ||| holds_axis(w, spec_cand_cross(aa.0, bb.2))
        ||| holds_axis(w, spec_cand_cross(aa.1, bb.0))
        ||| holds_axis(w, spec_cand_cross(aa.1, bb.1))
        ||| holds_axis(w, spec_cand_cross(aa.1, bb.2))
        ||| holds_axis(w, spec_cand_cross(aa.2, bb.0))
        ||| holds_axis(w, spec_cand_cross(aa.2, bb.1))
        ||| holds_axis(w, spec_cand_cross(aa.2, bb.2))
    }
}

/// Under a unique least axis, the SAT scan lands exactly on it.
proof fn lemma_chain_picks_min(a: Rectangle, b: Rectangle, w: (int, int, int), m: int)
    requires
        unique_min_axis(a, b, w, m),
        spec_dot(spec_sub(b.position.s(), a.position.s()), w) != 0,
    ensures
        spec_sat_state(a, b) == (m, spec_orient(spec_sub(b.position.s(), a.position.s()), w)),
{
    let aa = spec_axes(a);
    let bb = spec_axes(b);
    let cd = spec_sub(b.position.s(), a.position.s());
    lemma_orient_canon(cd, w);
    lemma_overlap_neg_all(a, b);
    let s0 = (0x7fff_ffff_ffff_ffffint, (0int, 0int, 0int));
    let s1 = sat_face(a, b, s0, aa.0);
    let s2 = sat_face(a, b, s1, aa.1);
    let s3 = sat_face(a, b, s2, aa.2);
    let s4 = sat_face(a, b, s3, bb.0);
    let s5 = sat_face(a, b, s4, bb.1);
    let s6 = sat_face(a, b, s5, bb.2);
    let s7 = sat_cross(a, b, s6, aa.0, bb.0);
    let s8 = sat_cross(a, b, s7, aa.0, bb.1);
    let s9 = sat_cross(a, b, s8, aa.0, bb.2);
    let s10 = sat_cross(a, b, s9, aa.1, bb.0);
    let s11 = sat_cross(a, b, s10, aa.1, bb.1);
    let s12 = sat_cross(a, b, s11, aa.1, bb.2);
    let s13 = sat_cross(a, b, s12, aa.2, bb.0);
    let s14 = sat_cross(a, b, s13, aa.2, bb.1);
    let s15 = sat_cross(a, b, s14, aa.2, bb.2);
    let inv = |s: (int, (int, int, int))|
        (s.0 == m && s.1 == spec_orient(cd, w)) || s.0 > m;
    assert(inv(s1));
    assert(inv(s2));
    assert(inv(s3));
    assert(inv(s4));
    assert(inv(s5));
    assert(inv(s6));
    assert(inv(s7));
    assert(inv(s8));
    assert(inv(s9));
    assert(inv(s10));
    assert(inv(s11));
    assert(inv(s12));
    assert(inv(s13));
    assert(inv(s14));
    assert(inv(s15));
    assert(s15.0 <= m);
    assert(spec_sat_state(a, b) == s15);
}

/// Law: the box-box test is symmetric under the engine's sign convention
/// whenever the axis of least overlap is unique (up to sign) and the
/// centers are not perpendicular to it: swapping the arguments negates
/// the MTV.  On ties the enumeration order picks the winning axis, and on
/// a perpendicular center difference the orientation rule keeps the
/// axis's own sign, so neither case guarantees negation.
#[verifier::rlimit(100)]
pub proof fn lemma_rect_rect_symmetry(a: Rectangle, b: Rectangle, w: (int, int, int), m: int)
    requires
        !spec_separated(a, b),
        unique_min_axis(a, b, w, m),
        spec_dot(spec_sub(b.position.s(), a.position.s()), w) != 0,
    ensures
        spec_rect_rect(b, a) == opt_neg(spec_rect_rect(a, b)),
{
    let aa = spec_axes(a);
    let bb = spec_axes(b);
    let cd = spec_sub(b.position.s(), a.position.s());
    let cdr = spec_sub(a.position.s(), b.position.s());
    assert(cdr == spec_neg(cd));
    lemma_rect_rect_separation_symmetry(a, b);
    lemma_chain_picks_min(a, b, w, m);
    // The swapped order sees the same face axes, and each cross candidate
    // negated; overlaps are unchanged, so the same axis is uniquely least.
    lemma_overlap_swap_all(a, b);
    lemma_overlap_neg_all(a, b);
    lemma_cand_cross_swap(aa.0, bb.0);
    lemma_cand_cross_swap(aa.0, bb.1);
    lemma_cand_cross_swap(aa.0, bb.2);
    lemma_cand_cross_swap(aa.1, bb.0);
    lemma_cand_cross_swap(aa.1, bb.1);
    lemma_cand_cross_swap(aa.1, bb.2);
    lemma_cand_cross_swap(aa.2, bb.0);
    lemma_cand_cross_swap(aa.2, bb.1);
    lemma_cand_cross_swap(aa.2, bb.2);
    assert(spec_neg(spec_neg(w)) == w);
    assert(unique_min_axis(b, a, w, m));
    lemma_dot_neg_left(cd, w);
    lemma_chain_picks_min(b, a, w, m);
    lemma_orient_flip(cd, w);
    lemma_scale_neg(spec_orient(cd, w), m);
}

/// Law: the sphere-sphere test is symmetric under the engine's sign
/// convention — swapping the arguments negates the MTV, and `None` comes
/// out for the one order iff it comes out for the other.  Exactly
/// coincident centers are excluded: there both orders return the same
/// fixed fallback direction, not negations.
pub proof fn lemma_sphere_sphere_symmetry(a: Sphere, b: Sphere)
    requires
        a.wf(),
        b.wf(),
        spec_sub(b.position.s(), a.position.s()) != (0int, 0int, 0int),
    ensures
        spec_sphere_sphere(b, a) == opt_neg(spec_sphere_sphere(a, b)),
{
    let dab = spec_sub(b.position.s(), a.position.s());
    let dba = spec_sub(a.position.s(), b.position.s());
    assert(dba == spec_neg(dab));
    lemma_dot_neg(dab);
    crate::vec3::lemma_dot_self_nonneg(dab);
    let dist_sq = spec_dot(dab, dab);
    let total = a.scale + b.scale;
    if dist_sq >= total * total {
    } else {
        lemma_norm_neg(dab, crate::collision::unit_x());
        let d = crate::num::sqrt_v(dist_sq);
        lemma_scale_neg(spec_norm_or(dab, crate::collision::unit_x()), total - d);
    }
}

/// Scaling by `ONE` and dividing by `ONE` is the identity.
proof fn lemma_sdiv_one_exact(x: int)
    ensures
        sdiv((ONE as int) * x, ONE as int) == x,
{
    vstd::arithmetic::div_mod::lemma_div_multiples_vanish(x, ONE as int);
    if x >= 0 {
        vstd::arithmetic::mul::lemma_mul_nonnegative(ONE as int, x);
    } else {
        assert((ONE as int) * x < 0) by (nonlinear_arith)
            requires
                x < 0,
        {
        }
        assert(-((ONE as int) * x) == (ONE as int) * (-x)) by (nonlinear_arith);
        vstd::arithmetic::div_mod::lemma_div_multiples_vanish(-x, ONE as int);
    }
}

/// The one-dimensional core of the resolution argument: along a single
/// axis the engine's rounding vanishes, and one correction moves the
/// centers to exactly the radius sum.
proof fn lemma_axis_resolve(dx: int, t: int)
    requires
        dx != 0,
        0 <= t,
        dx * dx < t * t,
    ensures
        crate::num::sqrt_v(dx * dx) == abs_v(dx),
        ({
            let d = abs_v(dx);
            let step = sdiv(sdiv(dx * ONE, d) * (t - d), ONE as int);
            step == if dx > 0 {
                t - d
            } else {
                -(t - d)
            } && (dx + step) * (dx + step) == t * t
        }),
{
    let d = abs_v(dx);
    assert(crate::num::is_floor_sqrt(dx * dx, d)) by (nonlinear_arith)
        requires
            d == abs_v(dx),
            dx != 0,
    {
    }
    crate::num::lemma_sqrt_unique(dx * dx, d);
    assert(d < t) by (nonlinear_arith)
        requires
            dx * dx < t * t,
            0 <= t,
            d == abs_v(dx),
    {
    }
    vstd::arithmetic::div_mod::lemma_div_multiples_vanish(ONE as int, d);
    vstd::arithmetic::div_mod::lemma_div_multiples_vanish(t - d, ONE as int);
    if dx > 0 {
        assert(sdiv(dx * ONE, d) == ONE);
        assert(sdiv(ONE * (t - d), ONE as int) == t - d);
        assert((dx + (t - d)) * (dx + (t - d)) == t * t) by (nonlinear_arith)
            requires
                dx > 0,
                d == abs_v(dx),
                dx == abs_v(dx),
        {
        }
    } else {
        assert(-(dx * ONE) == d * ONE);
        lemma_sdiv_neg(-(dx * ONE), d);
        assert(sdiv(dx * ONE, d) == -(ONE as int));
        lemma_neg_mul(ONE as int, t - d);
        lemma_sdiv_neg(ONE * (t - d), ONE as int);
        assert(sdiv((-(ONE as int)) * (t - d), ONE as int) == -(t - d));
        assert((dx + -(t - d)) * (dx + -(t - d)) == t * t) by (nonlinear_arith)
            requires
                dx < 0,
                d == abs_v(dx),
                -dx == abs_v(dx),
        {
        }
    }
}

/// One-axis resolution, centers differing along x only.
proof fn lemma_resolve_x(a: Sphere, b: Sphere, a2: Sphere)
    requires
        a.wf(),
        b.wf(),
        spec_sphere_sphere(a, b) is Some,
        spec_sub(b.position.s(), a.position.s()).0 != 0,
        spec_sub(b.position.s(), a.position.s()).1 == 0,
        spec_sub(b.position.s(), a.position.s()).2 == 0,
        a2.position.s() == crate::vec3::spec_add(
            a.position.s(),
            spec_sphere_sphere(a, b).unwrap(),
        ),
        a2.scale == a.scale,
    ensures
        spec_sphere_sphere(a2, b) is None,
{
    let delta = spec_sub(b.position.s(), a.position.s());
    let t = a.scale + b.scale;
    let dist_sq = spec_dot(delta, delta);
    vstd::arithmetic::div_mod::lemma_div_of0(ONE as int);
    lemma_axis_resolve(delta.0, t);
    crate::vec3::lemma_dot_self_nonneg(delta);
    let d = abs_v(delta.0);
    vstd::arithmetic::div_mod::lemma_div_of0(d);
    assert(dist_sq == delta.0 * delta.0);
    assert(crate::num::sqrt_v(dist_sq) == d);
    let dir = spec_norm_or(delta, crate::collision::unit_x());
    let step = sdiv(sdiv(delta.0 * ONE, d) * (t - d), ONE as int);
    assert(dir.0 == sdiv(delta.0 * ONE, d));
    assert(dir.1 == 0 && dir.2 == 0);
    vstd::arithmetic::mul::lemma_mul_basics(t - d);
    let v = spec_sphere_sphere(a, b).unwrap();
    assert(v.0 == -step && v.1 == 0 && v.2 == 0);
    let delta2 = spec_sub(b.position.s(), a2.position.s());
    assert(delta2.0 == delta.0 + step && delta2.1 == 0 && delta2.2 == 0);
    assert(spec_dot(delta2, delta2) == t * t);
}

/// One-axis resolution, centers differing along y only.
proof fn lemma_resolve_y(a: Sphere, b: Sphere, a2: Sphere)
    requires
        a.wf(),
        b.wf(),
        spec_sphere_sphere(a, b) is Some,
        spec_sub(b.position.s(), a.position.s()).1 != 0,
        spec_sub(b.position.s(), a.position.s()).0 == 0,
        spec_sub(b.position.s(), a.position.s()).2 == 0,
        a2.position.s() == crate::vec3::spec_add(
            a.position.s(),
            spec_sphere_sphere(a, b).unwrap(),
        ),
        a2.scale == a.scale,
    ensures
        spec_sphere_sphere(a2, b) is None,
{
    let delta = spec_sub(b.position.s(), a.position.s());
    let t = a.scale + b.scale;
    let dist_sq = spec_dot(delta, delta);
    vstd::arithmetic::div_mod::lemma_div_of0(ONE as int);
    lemma_axis_resolve(delta.1, t);
    crate::vec3::lemma_dot_self_nonneg(delta);
    let d = abs_v(delta.1);
    vstd::arithmetic::div_mod::lemma_div_of0(d);
    assert(dist_sq == delta.1 * delta.1);
    assert(crate::num::sqrt_v(dist_sq) == d);
    let dir = spec_norm_or(delta, crate::collision::unit_x());
    let step = sdiv(sdiv(delta.1 * ONE, d) * (t - d), ONE as int);
    assert(dir.1 == sdiv(delta.1 * ONE, d));
    assert(dir.0 == 0 && dir.2 == 0);
    vstd::arithmetic::mul::lemma_mul_basics(t - d);
    let v = spec_sphere_sphere(a, b).unwrap();
    assert(v.1 == -step && v.0 == 0 && v.2 == 0);
    let delta2 = spec_sub(b.position.s(), a2.position.s());
    assert(delta2.1 == delta.1 + step && delta2.0 == 0 && delta2.2 == 0);
    assert(spec_dot(delta2, delta2) == t * t);
}

/// One-axis resolution, centers differing along z only.
proof fn lemma_resolve_z(a: Sphere, b: Sphere, a2: Sphere)
    requires
        a.wf(),
        b.wf(),
        spec_sphere_sphere(a, b) is Some,
        spec_sub(b.position.s(), a.position.s()).2 != 0,
        spec_sub(b.position.s(), a.position.s()).0 == 0,
        spec_sub(b.position.s(), a.position.s()).1 == 0,
        a2.position.s() == crate::vec3::spec_add(
            a.position.s(),
            spec_sphere_sphere(a, b).unwrap(),
        ),
        a2.scale == a.scale,
    ensures
        spec_sphere_sphere(a2, b) is None,
{
    let delta = spec_sub(b.position.s(), a.position.s());
    let t = a.scale + b.scale;
    let dist_sq = spec_dot(delta, delta);
    vstd::arithmetic::div_mod::lemma_div_of0(ONE as int);
    lemma_axis_resolve(delta.2, t);
    crate::vec3::lemma_dot_self_nonneg(delta);
    let d = abs_v(delta.2);
    vstd::arithmetic::div_mod::lemma_div_of0(d);
    assert(dist_sq == delta.2 * delta.2);
    assert(crate::num::sqrt_v(dist_sq) == d);
    let dir = spec_norm_or(delta, crate::collision::unit_x());
    let step = sdiv(sdiv(delta.2 * ONE, d) * (t - d), ONE as int);
    assert(dir.2 == sdiv(delta.2 * ONE, d));
    assert(dir.0 == 0 && dir.1 == 0);
    vstd::arithmetic::mul::lemma_mul_basics(t - d);
    let v = spec_sphere_sphere(a, b).unwrap();
    assert(v.2 == -step && v.0 == 0 && v.1 == 0);
    let delta2 = spec_sub(b.position.s(), a2.position.s());
    assert(delta2.2 == delta.2 + step && delta2.0 == 0 && delta2.1 == 0);
    assert(spec_dot(delta2, delta2) == t * t);
}

/// The Cauchy-Schwarz inequality for triples, by the Lagrange identity,
/// built from named pairwise products so every step stays small.
proof fn lemma_lagrange(u: (int, int, int), v: (int, int, int))
    ensures
        spec_dot(u, u) * spec_dot(v, v) >= spec_dot(v, u) * spec_dot(v, u),
{
    let q00 = u.0 * v.0;
    let q01 = u.0 * v.1;
    let q02 = u.0 * v.2;
    let q10 = u.1 * v.0;
    let q11 = u.1 * v.1;
    let q12 = u.1 * v.2;
    let q20 = u.2 * v.0;
    let q21 = u.2 * v.1;
    let q22 = u.2 * v.2;
    // The full product expands over the pairwise squares.
    let a0 = u.0 * u.0;
    let a1 = u.1 * u.1;
    let a2 = u.2 * u.2;
    let b0 = v.0 * v.0;
    let b1 = v.1 * v.1;
    let b2 = v.2 * v.2;
    assert((a0 + a1 + a2) * (b0 + b1 + b2) == a0 * b0 + a0 * b1 + a0 * b2 + a1 * b0 + a1 * b1 + a1
        * b2 + a2 * b0 + a2 * b1 + a2 * b2) by (nonlinear_arith);
    assert(a0 * b0 == q00 * q00) by (nonlinear_arith)
        requires
            a0 == u.0 * u.0,
            b0 == v.0 * v.0,
            q00 == u.0 * v.0,
    {
    }
    assert(a0 * b1 == q01 * q01) by (nonlinear_arith)
        requires
            a0 == u.0 * u.0,
            b1 == v.1 * v.1,
            q01 == u.0 * v.1,
    {
    }
    assert(a0 * b2 == q02 * q02) by (nonlinear_arith)
        requires
            a0 == u.0 * u.0,
            b2 == v.2 * v.2,
            q02 == u.0 * v.2,
    {
    }
    assert(a1 * b0 == q10 * q10) by (nonlinear_arith)
        requires
            a1 == u.1 * u.1,
            b0 == v.0 * v.0,
            q10 == u.1 * v.0,
    {
    }
    assert(a1 * b1 == q11 * q11) by (nonlinear_arith)
        requires
            a1 == u.1 * u.1,
            b1 == v.1 * v.1,
            q11 == u.1 * v.1,
    {
    }
    assert(a1 * b2 == q12 * q12) by (nonlinear_arith)
        requires
            a1 == u.1 * u.1,
            b2 == v.2 * v.2,
            q12 == u.1 * v.2,
    {
    }
    assert(a2 * b0 == q20 * q20) by (nonlinear_arith)
        requires
            a2 == u.2 * u.2,
            b0 == v.0 * v.0,
            q20 == u.2 * v.0,
    {
    }
    assert(a2 * b1 == q21 * q21) by (nonlinear_arith)
        requires
            a2 == u.2 * u.2,
            b1 == v.1 * v.1,
            q21 == u.2 * v.1,
    {
    }
    assert(a2 * b2 == q22 * q22) by (nonlinear_arith)
        requires
            a2 == u.2 * u.2,
            b2 == v.2 * v.2,
            q22 == u.2 * v.2,
    {
    }
    assert(spec_dot(u, u) * spec_dot(v, v) == q00 * q00 + q01 * q01 + q02 * q02 + q10 * q10 + q11
        * q11 + q12 * q12 + q20 * q20 + q21 * q21 + q22 * q22);
    // Mixed diagonal products equal mixed off-diagonal products.
    assert(q01 * q10 == q00 * q11) by (nonlinear_arith)
        requires
            q01 == u.0 * v.1,
            q10 == u.1 * v.0,
            q00 == u.0 * v.0,
            q11 == u.1 * v.1,
    {
    }
    assert(q02 * q20 == q00 * q22) by (nonlinear_arith)
        requires
            q02 == u.0 * v.2,
            q20 == u.2 * v.0,
            q00 == u.0 * v.0,
            q22 == u.2 * v.2,
    {
    }
    assert(q12 * q21 == q11 * q22) by (nonlinear_arith)
        requires
            q12 == u.1 * v.2,
            q21 == u.2 * v.1,
            q11 == u.1 * v.1,
            q22 == u.2 * v.2,
    {
    }
    // The dot product squared expands over the diagonal.
    assert(spec_dot(v, u) * spec_dot(v, u) == q00 * q00 + q11 * q11 + q22 * q22 + 2 * (q00 * q11)
        + 2 * (q00 * q22) + 2 * (q11 * q22)) by (nonlinear_arith)
        requires
            spec_dot(v, u) == q00 + q11 + q22,
            q00 == u.0 * v.0,
            q11 == u.1 * v.1,
            q22 == u.2 * v.2,
    {
    }
    // What is left over is a sum of three squares.
    assert((q01 - q10) * (q01 - q10) >= 0 && (q02 - q20) * (q02 - q20) >= 0 && (q12 - q21) * (q12
        - q21) >= 0) by (nonlinear_arith);
    assert((q01 - q10) * (q01 - q10) == q01 * q01 - 2 * (q01 * q10) + q10 * q10)
        by (nonlinear_arith);
    assert((q02 - q20) * (q02 - q20) == q02 * q02 - 2 * (q02 * q20) + q20 * q20)
        by (nonlinear_arith);
    assert((q12 - q21) * (q12 - q21) == q12 * q12 - 2 * (q12 * q21) + q21 * q21)
        by (nonlinear_arith);
}

/// One component of the correction: scaled by `d * ONE`, the corrected
/// component `dx + step` reaches `t/d` times the old one, short of at
/// most the rounding loss `d * (t - d + ONE)`; and the step never points
/// against the component.
proof fn lemma_comp_step(dx: int, d: int, t: int)
    requires
        1 <= d < t,
        abs_v(dx) <= d,
    ensures
        ({
            let dir = sdiv(dx * ONE, d);
            let step = sdiv(dir * (t - d), ONE as int);
            &&& step * dx >= 0
            &&& (dx + step) * dx >= 0
            &&& d * ONE * ((dx + step) * dx) >= ONE * t * (dx * dx) - d * (t - d + ONE) * abs_v(
                dx,
            )
        }),
{
    let u = abs_v(dx);
    let dirm = (u * (ONE as int)) / d;
    let stepm = (dirm * (t - d)) / (ONE as int);
    vstd::arithmetic::mul::lemma_mul_nonnegative(u, ONE as int);
    vstd::arithmetic::div_mod::lemma_fundamental_div_mod(u * ONE, d);
    vstd::arithmetic::div_mod::lemma_div_pos_is_pos(u * ONE, d);
    vstd::arithmetic::mul::lemma_mul_nonnegative(dirm, t - d);
    vstd::arithmetic::div_mod::lemma_fundamental_div_mod(dirm * (t - d), ONE as int);
    vstd::arithmetic::div_mod::lemma_div_pos_is_pos(dirm * (t - d), ONE as int);
    assert(d * ONE * ((u + stepm) * u) >= ONE * t * (u * u) - d * (t - d + ONE) * u)
        by (nonlinear_arith)
        requires
            1 <= d < t,
            0 <= u <= d,
            dirm >= 0,
            stepm >= 0,
            d * dirm + (u * ONE) % d == u * ONE,
            0 <= (u * ONE) % d < d,
            ONE * stepm + (dirm * (t - d)) % (ONE as int) == dirm * (t - d),
            0 <= (dirm * (t - d)) % (ONE as int) < ONE,
            ONE == 65536,
    {
    }
    if dx >= 0 {
        assert(sdiv(dx * ONE, d) == dirm);
        assert(sdiv(dirm * (t - d), ONE as int) == stepm);
        assert(stepm * dx >= 0) by (nonlinear_arith)
            requires
                stepm >= 0,
                dx >= 0,
        {
        }
        assert((dx + stepm) * dx >= 0) by (nonlinear_arith)
            requires
                stepm >= 0,
                dx >= 0,
        {
        }
        assert((dx + stepm) * dx == (u + stepm) * u && dx * dx == u * u) by (nonlinear_arith)
            requires
                dx >= 0,
                u == dx,
        {
        }
    } else {
        assert(-(dx * ONE) == u * ONE) by (nonlinear_arith)
            requires
                dx < 0,
                u == -dx,
        {
        }
        lemma_sdiv_neg(-(dx * ONE), d);
        assert(sdiv(dx * ONE, d) == -dirm);
        let dir = sdiv(dx * ONE, d);
        assert(-(dir * (t - d)) == dirm * (t - d)) by (nonlinear_arith)
            requires
                dir == -dirm,
        {
        }
        lemma_sdiv_neg(-(dir * (t - d)), ONE as int);
        assert(sdiv(dir * (t - d), ONE as int) == -stepm);
        assert((-stepm) * dx >= 0) by (nonlinear_arith)
            requires
                stepm >= 0,
                dx < 0,
        {
        }
        assert((dx + -stepm) * dx >= 0) by (nonlinear_arith)
            requires
                stepm >= 0,
                dx < 0,
        {
        }
        assert((dx + -stepm) * dx == (u + stepm) * u && dx * dx == u * u) by (nonlinear_arith)
            requires
                dx < 0,
                u == -dx,
        {
        }
    }
}

/// An unrotated box's derived world axes are exactly the coordinate
/// axes: the sine chain is exact at the quarter turns, and normalizing a
/// positively scaled coordinate axis recovers the unit axis.
proof fn lemma_axes_axis_aligned(r: Rectangle)
    requires
        r.wf(),
        r.x_angle == 0 && r.y_angle == 0 && r.z_angle == 0,
        r.scale.x >= 1 && r.scale.y >= 1 && r.scale.z >= 1,
    ensures
        spec_axes(r) == (
            (ONE as int, 0int, 0int),
            (0int, ONE as int, 0int),
            (0int, 0int, ONE as int),
        ),
{
    reveal(crate::trig::spec_sin);
    reveal(crate::trig::spec_cos);
    vstd::arithmetic::div_mod::lemma_small_mod(0nat, 23592960nat);
    vstd::arithmetic::div_mod::lemma_small_mod(5898240nat, 23592960nat);
    vstd::arithmetic::div_mod::lemma_div_of0(ONE as int);
    vstd::arithmetic::div_mod::lemma_div_of0(40500 * ONE);
    assert(crate::trig::spec_wrap(0) == 0);
    assert(crate::trig::spec_sin_half(0) == 0);
    assert(crate::trig::spec_sin(0) == 0);
    assert(crate::trig::spec_wrap(90 * ONE) == 90 * ONE);
    assert((90 * ONE * (180 * ONE - 90 * ONE)) / (ONE as int) == 8100 * ONE);
    assert(crate::trig::spec_sin_half(90 * ONE) == sdiv(4 * (8100 * ONE) * ONE, 32400 * ONE));
    assert(4 * (8100 * ONE) * ONE == (32400 * ONE) * (ONE as int));
    vstd::arithmetic::div_mod::lemma_div_multiples_vanish(ONE as int, 32400 * ONE);
    assert(crate::trig::spec_cos(0) == ONE);
    reveal(crate::shapes::spec_rot_cols);
    assert(crate::num::mulq(ONE as int, ONE as int) == ONE) by {
        vstd::arithmetic::div_mod::lemma_div_multiples_vanish(ONE as int, ONE as int);
        assert((ONE as int) * (ONE as int) == (ONE as int) * (ONE as int));
    }
    assert(crate::num::mulq(0, 0) == 0);
    assert(crate::num::mulq(ONE as int, 0) == 0) by {
        vstd::arithmetic::mul::lemma_mul_basics(ONE as int);
    }
    assert(crate::num::mulq(0, ONE as int) == 0) by {
        vstd::arithmetic::mul::lemma_mul_basics(ONE as int);
    }
    let cols = crate::shapes::spec_rot_cols(0, 0, 0);
    assert(cols == (
        (ONE as int, 0int, 0int),
        (0int, ONE as int, 0int),
        (0int, 0int, ONE as int),
    ));
    reveal(Rectangle::spec_model);
    lemma_sdiv_one_exact(r.scale.x as int);
    lemma_sdiv_one_exact(r.scale.y as int);
    lemma_sdiv_one_exact(r.scale.z as int);
    vstd::arithmetic::mul::lemma_mul_basics(r.scale.x as int);
    vstd::arithmetic::mul::lemma_mul_basics(r.scale.y as int);
    vstd::arithmetic::mul::lemma_mul_basics(r.scale.z as int);
    let m = r.spec_model();
    assert(m.0 == (r.scale.x as int, 0int, 0int));
    assert(m.1 == (0int, r.scale.y as int, 0int));
    assert(m.2 == (0int, 0int, r.scale.z as int));
    reveal(spec_axes);
    lemma_norm_scaled_axis_x(r.scale.x as int);
    lemma_norm_scaled_axis_y(r.scale.y as int);
    lemma_norm_scaled_axis_z(r.scale.z as int);
}

/// Normalizing a positively scaled x axis yields the unit x axis.
proof fn lemma_norm_scaled_axis_x(h: int)
    requires
        h >= 1,
    ensures
        spec_norm_or((h, 0int, 0int), crate::collision::unit_x()) == (ONE as int, 0int, 0int),
{
    lemma_norm_scaled_axis_core(h);
    vstd::arithmetic::mul::lemma_mul_basics(0);
    let a = (h, 0int, 0int);
    assert(spec_dot(a, a) == h * h);
}

/// Normalizing a positively scaled y axis yields the unit y axis.
proof fn lemma_norm_scaled_axis_y(h: int)
    requires
        h >= 1,
    ensures
        spec_norm_or((0int, h, 0int), crate::collision::unit_x()) == (0int, ONE as int, 0int),
{
    lemma_norm_scaled_axis_core(h);
    vstd::arithmetic::mul::lemma_mul_basics(0);
    let a = (0int, h, 0int);
    assert(spec_dot(a, a) == h * h);
}

/// Normalizing a positively scaled z axis yields the unit z axis.
proof fn lemma_norm_scaled_axis_z(h: int)
    requires
        h >= 1,
    ensures
        spec_norm_or((0int, 0int, h), crate::collision::unit_x()) == (0int, 0int, ONE as int),
{
    lemma_norm_scaled_axis_core(h);
    vstd::arithmetic::mul::lemma_mul_basics(0);
    let a = (0int, 0int, h);
    assert(spec_dot(a, a) == h * h);
}

/// Shared facts for normalizing one scaled coordinate axis.
proof fn lemma_norm_scaled_axis_core(h: int)
    requires
        h >= 1,
    ensures
        crate::num::sqrt_v(h * h) == h,
        sdiv(h * ONE, h) == ONE,
        sdiv(0, h) == 0,
        h * h >= 1,
{
    assert(crate::num::is_floor_sqrt(h * h, h)) by (nonlinear_arith)
        requires
            h >= 1,
    {
    }
    crate::num::lemma_sqrt_unique(h * h, h);
    assert(h * h >= 1) by (nonlinear_arith)
        requires
            h >= 1,
    {
    }
    vstd::arithmetic::div_mod::lemma_div_multiples_vanish(ONE as int, h);
    vstd::arithmetic::mul::lemma_mul_nonnegative(h, ONE as int);
    vstd::arithmetic::div_mod::lemma_div_of0(h);
}

/// The scalar core of the residual bound: with the slack chosen as
/// `8 * (t / ONE) + 16`, the quadratic bracket stays nonnegative.
proof fn lemma_bracket_nonneg(d: int, t: int, slack: int, s_q: int)
    requires
        1 <= d < t,
        0 <= slack <= t,
        ONE * slack >= 8 * t + 8 * ONE,
        s_q >= d * d,
    ensures
        (ONE * t) * (ONE * t) * s_q - 8 * (ONE * t) * (d * (d * (t - d + ONE))) - d * d * (ONE
            * ONE * ((t - slack) * (t - slack))) >= 0,
{
    let g = ONE * t;
    let h = d * (d * (t - d + ONE));
    let rsq = (t - slack) * (t - slack);
    let inner = ONE * ONE * t * t - 8 * ONE * t * (t - d + ONE) - ONE * ONE * rsq;
    assert(inner >= 0) by (nonlinear_arith)
        requires
            inner == ONE * ONE * t * t - 8 * ONE * t * (t - d + ONE) - ONE * ONE * ((t - slack) * (
            t - slack)),
            rsq == (t - slack) * (t - slack),
            0 <= slack <= t,
            1 <= d < t,
            ONE * slack >= 8 * t + 8 * ONE,
            ONE == 65536,
    {
    }
    assert(g * g * s_q >= g * g * (d * d)) by (nonlinear_arith)
        requires
            s_q >= d * d,
    {
    }
    let e = t - d + ONE;
    assert(h == d * (d * e));
    let big_x = ONE * ONE * t * t;
    let big_y = 8 * ONE * t * e;
    let big_z = ONE * ONE * rsq;
    assert(inner == big_x - big_y - big_z);
    assert(d * d * inner == d * d * big_x - d * d * big_y - d * d * big_z) by (nonlinear_arith)
        requires
            inner == big_x - big_y - big_z,
    {
    }
    assert(g * g * (d * d) == d * d * big_x) by (nonlinear_arith)
        requires
            g == ONE * t,
            big_x == ONE * ONE * t * t,
    {
    }
    assert(8 * g * h == d * d * big_y) by (nonlinear_arith)
        requires
            g == ONE * t,
            h == d * (d * e),
            big_y == 8 * ONE * t * e,
    {
    }
    assert(d * d * (ONE * ONE * rsq) == d * d * big_z);
    assert(d * d * inner >= 0) by (nonlinear_arith)
        requires
            inner >= 0,
            d >= 1,
    {
    }
}

/// Rescaling commutes with the factor order: `(x * ONE) / ONE == x`.
proof fn lemma_sdiv_x_one(x: int)
    ensures
        sdiv(x * ONE, ONE as int) == x,
{
    assert(x * ONE == (ONE as int) * x) by (nonlinear_arith);
    lemma_sdiv_one_exact(x);
}

/// Law (axis-aligned face case): for an unrotated box and a sphere
/// beyond the box's +x face, within the face's extent in y and z, one
/// application of the sphere-box MTV separates the pair exactly: the
/// closest point sits on that face, every projection is exact in fixed
/// point, and the corrected center lands exactly one radius away.
pub proof fn lemma_sphere_rect_mtv_resolves_face(s: Sphere, r: Rectangle, s2: Sphere)
    requires
        s.wf(),
        r.wf(),
        r.x_angle == 0 && r.y_angle == 0 && r.z_angle == 0,
        r.scale.x >= 1 && r.scale.y >= 1 && r.scale.z >= 1,
        s.position.s().0 - r.position.s().0 > r.scale.x,
        abs_v(s.position.s().1 - r.position.s().1) <= r.scale.y,
        abs_v(s.position.s().2 - r.position.s().2) <= r.scale.z,
        spec_sphere_rect(s, r) is Some,
        s2.position.s() == crate::vec3::spec_add(
            s.position.s(),
            spec_sphere_rect(s, r).unwrap(),
        ),
        s2.scale == s.scale,
    ensures
        spec_sphere_rect(s2, r) is None,
{
    lemma_axes_axis_aligned(r);
    reveal(spec_closest);
    vstd::arithmetic::div_mod::lemma_div_of0(ONE as int);
    vstd::arithmetic::mul::lemma_mul_basics(0);
    let p = s.position.s();
    let c = r.position.s();
    let diff = spec_sub(p, c);
    vstd::arithmetic::mul::lemma_mul_basics(diff.0);
    vstd::arithmetic::mul::lemma_mul_basics(diff.1);
    vstd::arithmetic::mul::lemma_mul_basics(diff.2);
    lemma_sdiv_x_one(diff.0);
    lemma_sdiv_x_one(diff.1);
    lemma_sdiv_x_one(diff.2);
    vstd::arithmetic::mul::lemma_mul_basics(r.scale.x as int);
    lemma_sdiv_one_exact(r.scale.x as int);
    lemma_sdiv_one_exact(diff.1);
    lemma_sdiv_one_exact(diff.2);
    let cp = spec_closest(r, p);
    assert(cp == (c.0 + r.scale.x, p.1, p.2));
    let g = diff.0 - r.scale.x;
    assert(g >= 1);
    let to_sphere = spec_sub(p, cp);
    assert(to_sphere == (g, 0int, 0int));
    lemma_norm_scaled_axis_x(g);
    assert(spec_dot(to_sphere, to_sphere) == g * g);
    let rad = s.scale as int;
    assert(g * g < rad * rad);
    assert(crate::num::sqrt_v(g * g) == g) by {
        assert(crate::num::is_floor_sqrt(g * g, g)) by (nonlinear_arith)
            requires
                g >= 1,
        {
        }
        crate::num::lemma_sqrt_unique(g * g, g);
    }
    let pen = rad - g;
    assert(pen >= 1) by (nonlinear_arith)
        requires
            g * g < rad * rad,
            g >= 1,
            rad >= 0,
            pen == rad - g,
    {
    }
    vstd::arithmetic::mul::lemma_mul_basics(pen);
    lemma_sdiv_one_exact(pen);
    let v = spec_sphere_rect(s, r).unwrap();
    assert(v == (pen, 0int, 0int));
    // The corrected sphere sees the same closest point, one radius away.
    let p2 = s2.position.s();
    assert(p2 == (p.0 + pen, p.1, p.2));
    let diff2 = spec_sub(p2, c);
    vstd::arithmetic::mul::lemma_mul_basics(diff2.0);
    lemma_sdiv_x_one(diff2.0);
    assert(diff2.0 > r.scale.x);
    let cp2 = spec_closest(r, p2);
    assert(cp2 == (c.0 + r.scale.x, p2.1, p2.2));
    let to_sphere2 = spec_sub(p2, cp2);
    assert(to_sphere2 == (g + pen, 0int, 0int));
    assert(spec_dot(to_sphere2, to_sphere2) == rad * rad);
}

/// Law: one application of the sphere-sphere MTV leaves a residual
/// penetration of at most `8 * (radiusSum / ONE) + 16` raw units — pure
/// fixed-point rounding, about a ten-thousandth of a world unit per world
/// unit of radius sum.  Along coordinate axes the residual is exactly
/// zero (see `lemma_sphere_mtv_resolves_axis`).
pub proof fn lemma_sphere_mtv_nearly_resolves(a: Sphere, b: Sphere, a2: Sphere)
    requires
        a.wf(),
        b.wf(),
        spec_sphere_sphere(a, b) is Some,
        a2.position.s() == crate::vec3::spec_add(
            a.position.s(),
            spec_sphere_sphere(a, b).unwrap(),
        ),
        a2.scale == a.scale,
    ensures
        ({
            let t = a.scale + b.scale;
            let slack = 8 * (t / (ONE as int)) + 16;
            t <= slack || spec_center_dist_sq(a2, b) >= (t - slack) * (t - slack)
        }),
{
    let delta = spec_sub(b.position.s(), a.position.s());
    let t = a.scale + b.scale;
    let slack = 8 * (t / (ONE as int)) + 16;
    let s_q = spec_dot(delta, delta);
    crate::vec3::lemma_dot_self_nonneg(delta);
    if t > slack {
        if delta == (0int, 0int, 0int) {
            lemma_sphere_mtv_resolves_axis(a, b, a2);
            assert(spec_center_dist_sq(a2, b) >= t * t);
            assert(t * t >= (t - slack) * (t - slack)) by (nonlinear_arith)
                requires
                    0 <= slack <= t,
            {
            }
        } else {
            assert(s_q >= 1);
            crate::num::lemma_sqrt_exists(s_q);
            let d = crate::num::sqrt_v(s_q);
            assert(1 <= d) by (nonlinear_arith)
                requires
                    crate::num::is_floor_sqrt(s_q, d),
                    s_q >= 1,
            {
            }
            assert(d < t) by (nonlinear_arith)
                requires
                    0 <= d,
                    0 <= t,
                    d * d <= s_q,
                    s_q < t * t,
            {
            }
            crate::vec3::lemma_component_le_len(delta);
            assert(crate::vec3::vbound(delta, d));
            lemma_comp_step(delta.0, d, t);
            lemma_comp_step(delta.1, d, t);
            lemma_comp_step(delta.2, d, t);
            let step0 = sdiv(sdiv(delta.0 * ONE, d) * (t - d), ONE as int);
            let step1 = sdiv(sdiv(delta.1 * ONE, d) * (t - d), ONE as int);
            let step2 = sdiv(sdiv(delta.2 * ONE, d) * (t - d), ONE as int);
            // The engine's MTV is exactly the negated step, componentwise.
            let dir = spec_norm_or(delta, crate::collision::unit_x());
            assert(dir == (sdiv(delta.0 * ONE, d), sdiv(delta.1 * ONE, d), sdiv(delta.2 * ONE, d)));
            let v = spec_sphere_sphere(a, b).unwrap();
            assert(v == (-step0, -step1, -step2));
            let delta2 = spec_sub(b.position.s(), a2.position.s());
            assert(delta2 == (delta.0 + step0, delta.1 + step1, delta.2 + step2));
            let s2_q = spec_dot(delta2, delta2);
            let p = spec_dot(delta2, delta);
            let q = abs_v(delta.0) + abs_v(delta.1) + abs_v(delta.2);
            let f = d * (t - d + ONE);
            // Sum the three component inequalities.
            let x0 = (delta.0 + step0) * delta.0;
            let x1 = (delta.1 + step1) * delta.1;
            let x2 = (delta.2 + step2) * delta.2;
            let y0 = delta.0 * delta.0;
            let y1 = delta.1 * delta.1;
            let y2 = delta.2 * delta.2;
            let u0 = abs_v(delta.0);
            let u1 = abs_v(delta.1);
            let u2 = abs_v(delta.2);
            assert(d * ONE * p >= ONE * t * s_q - f * q) by (nonlinear_arith)
                requires
                    p == x0 + x1 + x2,
                    s_q == y0 + y1 + y2,
                    q == u0 + u1 + u2,
                    d * ONE * x0 >= ONE * t * y0 - f * u0,
                    d * ONE * x1 >= ONE * t * y1 - f * u1,
                    d * ONE * x2 >= ONE * t * y2 - f * u2,
            {
            }
            assert(p == x0 + x1 + x2 && p >= 0);
            // The componentwise magnitudes are small against the length.
            assert(q * q <= 3 * s_q) by (nonlinear_arith)
                requires
                    q == abs_v(delta.0) + abs_v(delta.1) + abs_v(delta.2),
                    s_q == delta.0 * delta.0 + delta.1 * delta.1 + delta.2 * delta.2,
            {
            }
            assert(0 <= q <= 4 * d) by (nonlinear_arith)
                requires
                    q == abs_v(delta.0) + abs_v(delta.1) + abs_v(delta.2),
                    q * q <= 3 * s_q,
                    s_q < (d + 1) * (d + 1),
                    d >= 1,
            {
            }
            let w = ONE * t * s_q - 4 * d * f;
            assert(w <= d * ONE * p) by (nonlinear_arith)
                requires
                    w == ONE * t * s_q - 4 * d * f,
                    d * ONE * p >= ONE * t * s_q - f * q,
                    0 <= q <= 4 * d,
                    f >= 0,
            {
            }
            assert(w >= 0) by (nonlinear_arith)
                requires
                    w == ONE * t * s_q - 4 * d * f,
                    f == d * (t - d + ONE),
                    s_q >= d * d,
                    1 <= d < t,
                    t >= 16,
                    ONE == 65536,
            {
            }
            // Cauchy-Schwarz via the Lagrange identity.
            lemma_lagrange(delta, delta2);
            assert(s_q * s2_q >= p * p);
            // Chain the bounds, squared.
            assert((d * ONE) * (d * ONE) * (s_q * s2_q) >= w * w) by (nonlinear_arith)
                requires
                    s_q * s2_q >= p * p,
                    0 <= w <= d * ONE * p,
                    d >= 1,
                    ONE == 65536,
            {
            }
            vstd::arithmetic::div_mod::lemma_fundamental_div_mod(t, ONE as int);
            assert(ONE * slack >= 8 * t + 8 * ONE) by (nonlinear_arith)
                requires
                    slack == 8 * (t / (ONE as int)) + 16,
                    (ONE as int) * (t / (ONE as int)) + t % (ONE as int) == t,
                    0 <= t % (ONE as int) < ONE,
                    ONE == 65536,
            {
            }
            // The scalar core: the slack absorbs the rounding loss.
            let g = ONE * t;
            let h = d * (d * (t - d + ONE));
            let rsq = (t - slack) * (t - slack);
            let bracket = g * g * s_q - 8 * g * h - d * d * (ONE * ONE * rsq);
            lemma_bracket_nonneg(d, t, slack, s_q);
            assert(bracket >= 0);
            assert(w == g * s_q - 4 * h) by (nonlinear_arith)
                requires
                    w == ONE * t * s_q - 4 * d * f,
                    f == d * (t - d + ONE),
                    g == ONE * t,
                    h == d * (d * (t - d + ONE)),
            {
            }
            assert(w * w >= s_q * (g * g * s_q - 8 * g * h)) by (nonlinear_arith)
                requires
                    w == g * s_q - 4 * h,
                    s_q >= 1,
            {
            }
            assert(s_q * (g * g * s_q - 8 * g * h) == s_q * bracket + s_q * (d * d * (ONE * ONE
                * rsq))) by (nonlinear_arith)
                requires
                    bracket == g * g * s_q - 8 * g * h - d * d * (ONE * ONE * rsq),
            {
            }
            assert(s_q * bracket >= 0) by (nonlinear_arith)
                requires
                    bracket >= 0,
                    s_q >= 1,
            {
            }
            assert(w * w >= s_q * (d * d * (ONE * ONE * rsq)));
            assert(s2_q >= rsq) by (nonlinear_arith)
                requires
                    (d * ONE) * (d * ONE) * (s_q * s2_q) >= w * w,
                    w * w >= s_q * (d * d * (ONE * ONE * rsq)),
                    s_q >= 1,
                    d >= 1,
                    ONE == 65536,
            {
            }
            assert(spec_center_dist_sq(a2, b) == s2_q);
        }
    }
}

/// Law (one-axis case): when the returned sphere-sphere MTV is applied
/// once to the first sphere, and the centers differ along at most one
/// coordinate axis, the corrected pair no longer collides — the engine's
/// rounding is exact there, so the centers land exactly at the radius
/// sum.  (Off-axis pairs can keep a residual overlap of a few raw units
/// from rounding.)
pub proof fn lemma_sphere_mtv_resolves_axis(a: Sphere, b: Sphere, a2: Sphere)
    requires
        a.wf(),
        b.wf(),
        spec_sphere_sphere(a, b) is Some,
        ({
            let delta = spec_sub(b.position.s(), a.position.s());
            (delta.1 == 0 && delta.2 == 0) || (delta.0 == 0 && delta.2 == 0) || (delta.0 == 0
                && delta.1 == 0)
        }),
        a2.position.s() == crate::vec3::spec_add(
            a.position.s(),
            spec_sphere_sphere(a, b).unwrap(),
        ),
        a2.scale == a.scale,
    ensures
        spec_sphere_sphere(a2, b) is None,
{
    let delta = spec_sub(b.position.s(), a.position.s());
    let t = a.scale + b.scale;
    let dist_sq = spec_dot(delta, delta);
    vstd::arithmetic::div_mod::lemma_div_of0(ONE as int);
    if delta == (0int, 0int, 0int) {
        // Coincident centers: the fallback +x direction is exact.
        assert(dist_sq == 0);
        crate::num::lemma_sqrt_unique(0, 0);
        vstd::arithmetic::div_mod::lemma_div_multiples_vanish(t, ONE as int);
        lemma_sdiv_one_exact(t);
        vstd::arithmetic::mul::lemma_mul_basics(t);
        let v = spec_sphere_sphere(a, b).unwrap();
        assert(crate::num::sqrt_v(dist_sq) == 0);
        assert(spec_norm_or(delta, crate::collision::unit_x()) == crate::collision::unit_x());
        assert(spec_scale_q(crate::collision::unit_x(), t) == (t, 0int, 0int));
        assert(v == (-t, 0int, 0int));
        let delta2 = spec_sub(b.position.s(), a2.position.s());
        assert(delta2 == (t, 0int, 0int));
        assert(spec_dot(delta2, delta2) == t * t);
    } else if delta.1 == 0 && delta.2 == 0 {
        lemma_resolve_x(a, b, a2);
    } else if delta.0 == 0 && delta.2 == 0 {
        lemma_resolve_y(a, b, a2);
    } else {
        lemma_resolve_z(a, b, a2);
    }
}

/// Law: the mixed pair is symmetric in the same sense — the box-first
/// order returns the negation of the sphere-first order (each order with
/// its own documented fallback), except when the sphere's center lies
/// exactly on the box's closest point, where the fixed fallback normals
/// `+x` and `+y` are returned instead.
pub proof fn lemma_sphere_rect_symmetry(s: Sphere, r: Rectangle)
    requires
        s.wf(),
        r.wf(),
        spec_sub(s.position.s(), spec_closest(r, s.position.s())) != (0int, 0int, 0int),
    ensures
        spec_rect_sphere(r, s) == opt_neg(spec_sphere_rect(s, r)),
{
    let cp = spec_closest(r, s.position.s());
    let to_sphere = spec_sub(s.position.s(), cp);
    let to_closest = spec_sub(cp, s.position.s());
    assert(to_closest == spec_neg(to_sphere));
    lemma_dot_neg(to_sphere);
    crate::vec3::lemma_dot_self_nonneg(to_sphere);
    let dist_sq = spec_dot(to_sphere, to_sphere);
    if dist_sq < s.scale * s.scale {
        lemma_norm_neg(to_sphere, crate::collision::unit_y());
        assert(spec_norm_or(to_sphere, crate::collision::unit_y()) == spec_norm_or(
            to_sphere,
            crate::collision::unit_x(),
        ));
        let d = crate::num::sqrt_v(dist_sq);
        lemma_scale_neg(spec_norm_or(to_sphere, crate::collision::unit_x()), s.scale - d);
    }
}

} // verus!

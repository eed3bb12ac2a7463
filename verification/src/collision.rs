//! Narrow-phase collision tests and the dispatch facade.
//!
//! Every test returns `None` exactly when the shapes do not overlap, and
//! otherwise a minimum-translation vector (MTV): add it to the first
//! shape's position, or subtract it from the second's, to separate them.
//! The contracts pin each result to an exact integer model of the
//! computation (`spec_sphere_sphere` and friends), and state the clean
//! geometric separation criterion as an iff.

use vstd::prelude::*;

use crate::num::MAX_COORD;
use crate::num::ONE;
use crate::num::abs_q;
use crate::num::abs_v;
use crate::num::div_q;
use crate::num::isqrt;
use crate::num::lemma_mul_bound;
use crate::num::sdiv;
use crate::num::sqrt_v;
use crate::shapes::Collider;
use crate::shapes::Rectangle;
use crate::shapes::Sphere;
use crate::vec3::Vec3;
use crate::vec3::lemma_dot_bound;
use crate::vec3::lemma_sdiv_le_factor;
use crate::vec3::spec_add;
use crate::vec3::spec_cross_q;
use crate::vec3::spec_dot;
use crate::vec3::spec_neg;
use crate::vec3::spec_norm_or;
use crate::vec3::spec_scale_q;
use crate::vec3::spec_sub;
use crate::vec3::vbound;

verus! {

/// Fallback direction where no direction is geometrically defined.
pub open spec fn unit_x() -> (int, int, int) {
    (ONE as int, 0int, 0int)
}

/// Fallback normal of the box-first sphere test.
pub open spec fn unit_y() -> (int, int, int) {
    (0int, ONE as int, 0int)
}

/// The view of a returned MTV.
pub open spec fn opt_s(o: Option<Vec3>) -> Option<(int, int, int)> {
    match o {
        Some(v) => Some(v.s()),
        None => None,
    }
}

/// Squared center distance of two spheres.
pub open spec fn spec_center_dist_sq(a: Sphere, b: Sphere) -> int {
    let delta = spec_sub(b.position.s(), a.position.s());
    spec_dot(delta, delta)
}

/// The sphere-sphere test: `None` iff the center distance reaches the
/// radius sum; otherwise the MTV `-(delta / |delta|) * (radiusSum - |delta|)`
/// (fallback direction `+x` for coincident centers), in exact fixed point.
pub open spec fn spec_sphere_sphere(a: Sphere, b: Sphere) -> Option<(int, int, int)> {
    let delta = spec_sub(b.position.s(), a.position.s());
    let dist_sq = spec_dot(delta, delta);
    let total = a.scale + b.scale;
    if dist_sq >= total * total {
        None
    } else {
        let d = sqrt_v(dist_sq);
        let dir = spec_norm_or(delta, unit_x());
        Some(spec_neg(spec_scale_q(dir, total - d)))
    }
}

/// Sphere versus sphere.
pub fn sphere_sphere(a: &Sphere, b: &Sphere) -> (r: Option<Vec3>)
    requires
        a.wf(),
        b.wf(),
    ensures
        opt_s(r) == spec_sphere_sphere(*a, *b),
        r is None <==> spec_center_dist_sq(*a, *b) >= (a.scale + b.scale) * (a.scale + b.scale),
{
    let delta = b.position.vsub(&a.position);
    let dist_sq: i64 = delta.vlen_sq();
    let total: i64 = a.scale + b.scale;
    proof {
        lemma_mul_bound(total as int, total as int, 0x1000_0000, 0x1000_0000);
    }
    if dist_sq >= total * total {
        return None;
    }
    let d: i64 = isqrt(dist_sq);
    proof {
        assert(d < total) by (nonlinear_arith)
            requires
                0 <= d,
                0 <= total,
                d * d <= dist_sq,
                dist_sq < total * total,
        {
        }
    }
    let dir = delta.vnorm_or(&Vec3::new(ONE, 0, 0));
    let overlap: i64 = total - d;
    let mtv = dir.vscale_q(overlap);
    proof {
        lemma_scale_unit(dir.s(), overlap as int, 0x4000_0000);
    }
    Some(mtv.vneg())
}

/// A unit axis scaled by a bounded scalar is bounded by that scalar.
proof fn lemma_scale_unit(axis: (int, int, int), s: int, c: int)
    requires
        vbound(axis, 0x1_0000),
        abs_v(s) <= c,
    ensures
        vbound(spec_scale_q(axis, s), c),
{
    lemma_mul_bound(axis.0, s, 0x1_0000, c);
    lemma_mul_bound(axis.1, s, 0x1_0000, c);
    lemma_mul_bound(axis.2, s, 0x1_0000, c);
    lemma_sdiv_le_factor(axis.0 * s, 0x1_0000, c);
    lemma_sdiv_le_factor(axis.1 * s, 0x1_0000, c);
    lemma_sdiv_le_factor(axis.2 * s, 0x1_0000, c);
}

/// The box's world axes: its model columns, each normalized fresh (with
/// the `+x` fallback for a degenerate column, per the never-fault policy).
#[verifier::opaque]
pub open spec fn spec_axes(r: Rectangle) -> (
    (int, int, int),
    (int, int, int),
    (int, int, int),
) {
    let m = r.spec_model();
    (spec_norm_or(m.0, unit_x()), spec_norm_or(m.1, unit_x()), spec_norm_or(m.2, unit_x()))
}

/// Derive and normalize the box's world axes.
fn axes_of(r: &Rectangle) -> (ax: (Vec3, Vec3, Vec3))
    requires
        r.wf(),
    ensures
        (ax.0.s(), ax.1.s(), ax.2.s()) == spec_axes(*r),
        ax.0.bounded(0x1_0000),
        ax.1.bounded(0x1_0000),
        ax.2.bounded(0x1_0000),
{
    proof {
        reveal(spec_axes);
    }
    let m = r.get_model();
    let e1 = Vec3::new(ONE, 0, 0);
    (m.c0.vnorm_or(&e1), m.c1.vnorm_or(&e1), m.c2.vnorm_or(&e1))
}

/// Clamp a scalar to an interval.
pub open spec fn spec_clamp(v: int, lo: int, hi: int) -> int {
    if v < lo {
        lo
    } else if v > hi {
        hi
    } else {
        v
    }
}

fn clamp_q(v: i64, lo: i64, hi: i64) -> (r: i64)
    requires
        lo <= hi,
    ensures
        r == spec_clamp(v as int, lo as int, hi as int),
{
    if v < lo {
        lo
    } else if v > hi {
        hi
    } else {
        v
    }
}

/// Closest point of the box (surface or interior) to `p`: project the
/// offset on each axis, clamp to the half-extent, and accumulate.
#[verifier::opaque]
pub open spec fn spec_closest(r: Rectangle, p: (int, int, int)) -> (int, int, int) {
    let axes = spec_axes(r);
    let diff = spec_sub(p, r.position.s());
    let t0 = spec_clamp(
        sdiv(spec_dot(diff, axes.0), ONE as int),
        -r.scale.x as int,
        r.scale.x as int,
    );
    let t1 = spec_clamp(
        sdiv(spec_dot(diff, axes.1), ONE as int),
        -r.scale.y as int,
        r.scale.y as int,
    );
    let t2 = spec_clamp(
        sdiv(spec_dot(diff, axes.2), ONE as int),
        -r.scale.z as int,
        r.scale.z as int,
    );
    spec_add(
        spec_add(spec_add(r.position.s(), spec_scale_q(axes.0, t0)), spec_scale_q(axes.1, t1)),
        spec_scale_q(axes.2, t2),
    )
}

#[verifier::rlimit(50)]
fn closest_point(r: &Rectangle, p: &Vec3) -> (c: Vec3)
    requires
        r.wf(),
        p.bounded(MAX_COORD as int),
    ensures
        c.s() == spec_closest(*r, p.s()),
        c.bounded(0x2000_0000),
{
    let axes = axes_of(r);
    let diff = p.vsub(&r.position);
    proof {
        reveal(spec_closest);
        lemma_dot_bound(diff.s(), axes.0.s(), 0x1000_0000, 0x1_0000);
        lemma_dot_bound(diff.s(), axes.1.s(), 0x1000_0000, 0x1_0000);
        lemma_dot_bound(diff.s(), axes.2.s(), 0x1000_0000, 0x1_0000);
    }
    let t0 = clamp_q(div_q(diff.vdot(&axes.0), ONE), -r.scale.x, r.scale.x);
    let t1 = clamp_q(div_q(diff.vdot(&axes.1), ONE), -r.scale.y, r.scale.y);
    let t2 = clamp_q(div_q(diff.vdot(&axes.2), ONE), -r.scale.z, r.scale.z);
    proof {
        lemma_scale_unit(axes.0.s(), t0 as int, 0x800_0000);
        lemma_scale_unit(axes.1.s(), t1 as int, 0x800_0000);
        lemma_scale_unit(axes.2.s(), t2 as int, 0x800_0000);
    }
    r.position.vadd(&axes.0.vscale_q(t0)).vadd(&axes.1.vscale_q(t1)).vadd(&axes.2.vscale_q(t2))
}

/// Squared distance from the sphere's center to the box's closest point.
pub open spec fn spec_closest_dist_sq(s: Sphere, r: Rectangle) -> int {
    let cp = spec_closest(r, s.position.s());
    let to_sphere = spec_sub(s.position.s(), cp);
    spec_dot(to_sphere, to_sphere)
}

/// The sphere-first sphere-box test: the MTV points from the closest point
/// toward the sphere's center (fallback `+x`), scaled by the penetration.
pub open spec fn spec_sphere_rect(s: Sphere, r: Rectangle) -> Option<(int, int, int)> {
    let cp = spec_closest(r, s.position.s());
    let to_sphere = spec_sub(s.position.s(), cp);
    let dist_sq = spec_dot(to_sphere, to_sphere);
    if dist_sq < s.scale * s.scale {
        let d = sqrt_v(dist_sq);
        Some(spec_scale_q(spec_norm_or(to_sphere, unit_x()), s.scale - d))
    } else {
        None
    }
}

/// The box-first test mirrors the vector (and uses fallback `+y`): the MTV
/// points from the sphere's center toward the closest point.
pub open spec fn spec_rect_sphere(r: Rectangle, s: Sphere) -> Option<(int, int, int)> {
    let cp = spec_closest(r, s.position.s());
    let to_closest = spec_sub(cp, s.position.s());
    let dist_sq = spec_dot(to_closest, to_closest);
    if dist_sq < s.scale * s.scale {
        let d = sqrt_v(dist_sq);
        Some(spec_scale_q(spec_norm_or(to_closest, unit_y()), s.scale - d))
    } else {
        None
    }
}

/// Sphere versus box (sphere first).
pub fn sphere_rect(s: &Sphere, r: &Rectangle) -> (mtv: Option<Vec3>)
    requires
        s.wf(),
        r.wf(),
    ensures
        opt_s(mtv) == spec_sphere_rect(*s, *r),
        mtv is None <==> spec_closest_dist_sq(*s, *r) >= s.scale * s.scale,
{
    let cp = closest_point(r, &s.position);
    let to_sphere = s.position.vsub(&cp);
    let dist_sq: i64 = to_sphere.vlen_sq();
    proof {
        lemma_mul_bound(s.scale as int, s.scale as int, 0x800_0000, 0x800_0000);
    }
    if dist_sq < s.scale * s.scale {
        let d: i64 = isqrt(dist_sq);
        proof {
            assert(d < s.scale) by (nonlinear_arith)
                requires
                    0 <= d,
                    0 <= s.scale,
                    d * d <= dist_sq,
                    dist_sq < s.scale * s.scale,
            {
            }
        }
        let normal = to_sphere.vnorm_or(&Vec3::new(ONE, 0, 0));
        let pen: i64 = s.scale - d;
        proof {
            lemma_scale_unit(normal.s(), pen as int, 0x800_0000);
        }
        Some(normal.vscale_q(pen))
    } else {
        None
    }
}

/// Box versus sphere (box first).
pub fn rect_sphere(r: &Rectangle, s: &Sphere) -> (mtv: Option<Vec3>)
    requires
        r.wf(),
        s.wf(),
    ensures
        opt_s(mtv) == spec_rect_sphere(*r, *s),
        mtv is None <==> spec_closest_dist_sq(*s, *r) >= s.scale * s.scale,
{
    let cp = closest_point(r, &s.position);
    let to_closest = cp.vsub(&s.position);
    let dist_sq: i64 = to_closest.vlen_sq();
    proof {
        lemma_mul_bound(s.scale as int, s.scale as int, 0x800_0000, 0x800_0000);
        lemma_flip_dot(s.position.s(), cp.s());
    }
    if dist_sq < s.scale * s.scale {
        let d: i64 = isqrt(dist_sq);
        proof {
            assert(d < s.scale) by (nonlinear_arith)
                requires
                    0 <= d,
                    0 <= s.scale,
                    d * d <= dist_sq,
                    dist_sq < s.scale * s.scale,
            {
            }
        }
        let normal = to_closest.vnorm_or(&Vec3::new(0, ONE, 0));
        let pen: i64 = s.scale - d;
        proof {
            lemma_scale_unit(normal.s(), pen as int, 0x800_0000);
        }
        Some(normal.vscale_q(pen))
    } else {
        None
    }
}

/// One projection term of a box's support radius along a unit axis.
pub open spec fn rad_term(u: (int, int, int), h: int, axis: (int, int, int)) -> int {
    sdiv(sdiv(abs_v(spec_dot(u, axis)), ONE as int) * h, ONE as int)
}

/// Support radius of a box about its center along a unit axis:
/// the half-extents weighted by how much each box axis leans on `axis`.
pub open spec fn spec_radius(
    axes: ((int, int, int), (int, int, int), (int, int, int)),
    he: (int, int, int),
    axis: (int, int, int),
) -> int {
    rad_term(axes.0, he.0, axis) + rad_term(axes.1, he.1, axis) + rad_term(axes.2, he.2, axis)
}

/// A center's scalar projection on a unit axis.
pub open spec fn spec_cproj(c: (int, int, int), axis: (int, int, int)) -> int {
    sdiv(spec_dot(c, axis), ONE as int)
}

pub open spec fn smin(a: int, b: int) -> int {
    if a <= b {
        a
    } else {
        b
    }
}

pub open spec fn smax(a: int, b: int) -> int {
    if a >= b {
        a
    } else {
        b
    }
}

/// Signed 1-D overlap of the boxes' projection intervals on a unit axis;
/// negative means the axis separates them.
#[verifier::opaque]
pub open spec fn spec_overlap(a: Rectangle, b: Rectangle, axis: (int, int, int)) -> int {
    let ra = spec_radius(spec_axes(a), a.scale.s(), axis);
    let rb = spec_radius(spec_axes(b), b.scale.s(), axis);
    let pa = spec_cproj(a.position.s(), axis);
    let pb = spec_cproj(b.position.s(), axis);
    smin(pa + ra, pb + rb) - smax(pa - ra, pb - rb)
}

/// A cross-product candidate axis; a degenerate cross (parallel source
/// axes) yields no candidate.
#[verifier::opaque]
pub open spec fn spec_cand_cross(u: (int, int, int), v: (int, int, int)) -> Option<
    (int, int, int),
> {
    let c = spec_cross_q(u, v);
    if spec_dot(c, c) == 0 {
        None
    } else {
        Some(spec_norm_or(c, unit_x()))
    }
}

/// Orient an axis so it points from the first box toward the second.
pub open spec fn spec_orient(cd: (int, int, int), axis: (int, int, int)) -> (int, int, int) {
    if spec_dot(cd, axis) < 0 {
        spec_neg(axis)
    } else {
        axis
    }
}

/// Keep the (overlap, oriented axis) pair of least overlap seen so far.
pub open spec fn sat_update(
    cd: (int, int, int),
    st: (int, (int, int, int)),
    ov: int,
    axis: (int, int, int),
) -> (int, (int, int, int)) {
    if ov < st.0 {
        (ov, spec_orient(cd, axis))
    } else {
        st
    }
}

/// Track one face-axis candidate.
pub open spec fn sat_face(
    a: Rectangle,
    b: Rectangle,
    st: (int, (int, int, int)),
    axis: (int, int, int),
) -> (int, (int, int, int)) {
    sat_update(spec_sub(b.position.s(), a.position.s()), st, spec_overlap(a, b, axis), axis)
}

/// Track one cross-product candidate (skipped when degenerate).
pub open spec fn sat_cross(
    a: Rectangle,
    b: Rectangle,
    st: (int, (int, int, int)),
    u: (int, int, int),
    v: (int, int, int),
) -> (int, (int, int, int)) {
    match spec_cand_cross(u, v) {
        None => st,
        Some(axis) => sat_update(
            spec_sub(b.position.s(), a.position.s()),
            st,
            spec_overlap(a, b, axis),
            axis,
        ),
    }
}

/// The (least overlap, oriented axis) pair after every candidate: the
/// first box's face axes, the second's, then the cross products in nested
/// order.  Ties keep the earlier axis.
pub open spec fn spec_sat_state(a: Rectangle, b: Rectangle) -> (int, (int, int, int)) {
    let aa = spec_axes(a);
    let bb = spec_axes(b);
    let s1 = sat_face(a, b, (0x7fff_ffff_ffff_ffffint, (0int, 0int, 0int)), aa.0);
    let s2 = sat_face(a, b, s1, aa.1);
    let s3 = sat_face(a, b, s2, aa.2);
    let s4 = sat_face(a, b, s3, bb.0);
    let s5 = sat_face(a, b, s4, bb.1);
    let s6 = sat_face(a, b, s5, bb.2);
    let s7 = sat_cross(a, b, s6, aa.0, bb.0);
    let s8 = sat_cross(a, b, s7, aa.0, bb.1);
    let s9 = sat_cross(a, b, s8, aa.0, bb.2);
    let s10 = sat_cross(a, b, s9, aa.1, bb.0);
    let s11 = sat_cross(a, b, s10, aa.1, bb.1);
    let s12 = sat_cross(a, b, s11, aa.1, bb.2);
    let s13 = sat_cross(a, b, s12, aa.2, bb.0);
    let s14 = sat_cross(a, b, s13, aa.2, bb.1);
    let s15 = sat_cross(a, b, s14, aa.2, bb.2);
    s15
}

/// A cross candidate exists and separates the boxes.
pub open spec fn sep_cross(
    a: Rectangle,
    b: Rectangle,
    u: (int, int, int),
    v: (int, int, int),
) -> bool {
    match spec_cand_cross(u, v) {
        None => false,
        Some(axis) => spec_overlap(a, b, axis) < 0,
    }
}

/// Some candidate axis separates the boxes (the SAT pruning criterion).
pub open spec fn spec_separated(a: Rectangle, b: Rectangle) -> bool {
    let aa = spec_axes(a);
    let bb = spec_axes(b);
    ||| spec_overlap(a, b, aa.0) < 0
    ||| spec_overlap(a, b, aa.1) < 0
    ||| spec_overlap(a, b, aa.2) < 0
    ||| spec_overlap(a, b, bb.0) < 0
    ||| spec_overlap(a, b, bb.1) < 0
    ||| spec_overlap(a, b, bb.2) < 0
    ||| sep_cross(a, b, aa.0, bb.0)
    ||| sep_cross(a, b, aa.0, bb.1)
    ||| sep_cross(a, b, aa.0, bb.2)
    ||| sep_cross(a, b, aa.1, bb.0)
    ||| sep_cross(a, b, aa.1, bb.1)
    ||| sep_cross(a, b, aa.1, bb.2)
    ||| sep_cross(a, b, aa.2, bb.0)
    ||| sep_cross(a, b, aa.2, bb.1)
    ||| sep_cross(a, b, aa.2, bb.2)
}

/// The box-box test: `None` iff some candidate axis separates the boxes;
/// otherwise the MTV `-axis * overlap` for the axis of least overlap,
/// oriented from the first box toward the second.
pub open spec fn spec_rect_rect(a: Rectangle, b: Rectangle) -> Option<(int, int, int)> {
    if spec_separated(a, b) {
        None
    } else {
        let st = spec_sat_state(a, b);
        Some(spec_neg(spec_scale_q(st.1, st.0)))
    }
}

/// One support-radius term.
fn rad_on(u: &Vec3, h: i64, axis: &Vec3) -> (r: i64)
    requires
        u.bounded(0x1_0000),
        axis.bounded(0x1_0000),
        0 <= h <= MAX_COORD,
    ensures
        r == rad_term(u.s(), h as int, axis.s()),
        0 <= r <= 0x1800_0000,
{
    proof {
        lemma_dot_bound(u.s(), axis.s(), 0x1_0000, 0x1_0000);
    }
    let d: i64 = u.vdot(axis);
    let t: i64 = div_q(abs_q(d), ONE);
    proof {
        lemma_sdiv_le_factor(abs_v(d as int), 0x1_0000, 0x3_0000);
        vstd::arithmetic::div_mod::lemma_div_pos_is_pos(abs_v(d as int), ONE as int);
        lemma_mul_bound(t as int, h as int, 0x3_0000, 0x800_0000);
        lemma_sdiv_le_factor(t as int * h as int, 0x1_0000, 0x1800_0000);
        assert(t as int * h as int >= 0) by (nonlinear_arith)
            requires
                t >= 0,
                h >= 0,
        {
        }
        vstd::arithmetic::div_mod::lemma_div_pos_is_pos(t as int * h as int, ONE as int);
    }
    div_q(t * h, ONE)
}

/// A center's projection.
fn cproj_on(c: &Vec3, axis: &Vec3) -> (r: i64)
    requires
        c.bounded(0x800_0000),
        axis.bounded(0x1_0000),
    ensures
        r == spec_cproj(c.s(), axis.s()),
        abs_v(r as int) <= 0x1800_0000,
{
    proof {
        lemma_dot_bound(c.s(), axis.s(), 0x800_0000, 0x1_0000);
        lemma_sdiv_le_factor(spec_dot(c.s(), axis.s()), 0x1_0000, 0x1800_0000);
    }
    div_q(c.vdot(axis), ONE)
}

/// The signed overlap of the two boxes' projections on one axis.
fn overlap_on(
    a: &Rectangle,
    b: &Rectangle,
    axes_a: &(Vec3, Vec3, Vec3),
    axes_b: &(Vec3, Vec3, Vec3),
    axis: &Vec3,
) -> (ov: i64)
    requires
        a.wf(),
        b.wf(),
        (axes_a.0.s(), axes_a.1.s(), axes_a.2.s()) == spec_axes(*a),
        (axes_b.0.s(), axes_b.1.s(), axes_b.2.s()) == spec_axes(*b),
        axes_a.0.bounded(0x1_0000),
        axes_a.1.bounded(0x1_0000),
        axes_a.2.bounded(0x1_0000),
        axes_b.0.bounded(0x1_0000),
        axes_b.1.bounded(0x1_0000),
        axes_b.2.bounded(0x1_0000),
        axis.bounded(0x1_0000),
    ensures
        ov == spec_overlap(*a, *b, axis.s()),
        abs_v(ov as int) <= 0xC000_0000,
{
    proof {
        reveal(spec_overlap);
    }
    let ra: i64 = rad_on(&axes_a.0, a.scale.x, axis) + rad_on(&axes_a.1, a.scale.y, axis)
        + rad_on(&axes_a.2, a.scale.z, axis);
    let rb: i64 = rad_on(&axes_b.0, b.scale.x, axis) + rad_on(&axes_b.1, b.scale.y, axis)
        + rad_on(&axes_b.2, b.scale.z, axis);
    let pa: i64 = cproj_on(&a.position, axis);
    let pb: i64 = cproj_on(&b.position, axis);
    let hi_a: i64 = pa + ra;
    let hi_b: i64 = pb + rb;
    let lo_a: i64 = pa - ra;
    let lo_b: i64 = pb - rb;
    let hi: i64 = if hi_a <= hi_b {
        hi_a
    } else {
        hi_b
    };
    let lo: i64 = if lo_a >= lo_b {
        lo_a
    } else {
        lo_b
    };
    hi - lo
}

/// Test one candidate axis: report separation, or fold it into the
/// tracked least-overlap state.
fn sat_step(
    a: &Rectangle,
    b: &Rectangle,
    axes_a: &(Vec3, Vec3, Vec3),
    axes_b: &(Vec3, Vec3, Vec3),
    cd: &Vec3,
    st: (i64, Vec3),
    axis: Vec3,
) -> (r: (bool, i64, Vec3))
    requires
        a.wf(),
        b.wf(),
        (axes_a.0.s(), axes_a.1.s(), axes_a.2.s()) == spec_axes(*a),
        (axes_b.0.s(), axes_b.1.s(), axes_b.2.s()) == spec_axes(*b),
        axes_a.0.bounded(0x1_0000),
        axes_a.1.bounded(0x1_0000),
        axes_a.2.bounded(0x1_0000),
        axes_b.0.bounded(0x1_0000),
        axes_b.1.bounded(0x1_0000),
        axes_b.2.bounded(0x1_0000),
        cd.s() == spec_sub(b.position.s(), a.position.s()),
        cd.bounded(0x1000_0000),
        axis.bounded(0x1_0000),
    ensures
        r.0 == (spec_overlap(*a, *b, axis.s()) < 0),
        !r.0 ==> (r.1 as int, r.2.s()) == sat_face(*a, *b, (st.0 as int, st.1.s()), axis.s()),
        abs_v(spec_overlap(*a, *b, axis.s())) <= 0xC000_0000,
        r.1 <= st.0,
        r.2 == st.1 || r.2.s() == spec_orient(cd.s(), axis.s()),
{
    let ov: i64 = overlap_on(a, b, axes_a, axes_b, &axis);
    if ov < 0 {
        return (true, st.0, st.1);
    }
    if ov < st.0 {
        let oriented: Vec3 = if cd.vdot(&axis) < 0 {
            axis.vneg()
        } else {
            axis
        };
        (false, ov, oriented)
    } else {
        (false, st.0, st.1)
    }
}

/// Build and test one cross-product candidate.
fn cross_step(
    a: &Rectangle,
    b: &Rectangle,
    axes_a: &(Vec3, Vec3, Vec3),
    axes_b: &(Vec3, Vec3, Vec3),
    cd: &Vec3,
    st: (i64, Vec3),
    u: Vec3,
    v: Vec3,
) -> (r: (bool, i64, Vec3))
    requires
        a.wf(),
        b.wf(),
        (axes_a.0.s(), axes_a.1.s(), axes_a.2.s()) == spec_axes(*a),
        (axes_b.0.s(), axes_b.1.s(), axes_b.2.s()) == spec_axes(*b),
        axes_a.0.bounded(0x1_0000),
        axes_a.1.bounded(0x1_0000),
        axes_a.2.bounded(0x1_0000),
        axes_b.0.bounded(0x1_0000),
        axes_b.1.bounded(0x1_0000),
        axes_b.2.bounded(0x1_0000),
        cd.s() == spec_sub(b.position.s(), a.position.s()),
        cd.bounded(0x1000_0000),
        u.bounded(0x1_0000),
        v.bounded(0x1_0000),
    ensures
        r.0 == sep_cross(*a, *b, u.s(), v.s()),
        !r.0 ==> (r.1 as int, r.2.s()) == sat_cross(
            *a,
            *b,
            (st.0 as int, st.1.s()),
            u.s(),
            v.s(),
        ),
        r.1 <= st.0,
        r.2 == st.1 || r.2.bounded(0x1_0000),
{
    let c = u.vcross_q(&v);
    proof {
        reveal(spec_cand_cross);
        crate::vec3::lemma_cross_bound(u.s(), v.s());
    }
    let sq: i64 = c.vlen_sq();
    if sq == 0 {
        (false, st.0, st.1)
    } else {
        let cand = c.vnorm_or(&Vec3::new(ONE, 0, 0));
        let r = sat_step(a, b, axes_a, axes_b, cd, st, cand);
        proof {
            assert(r.2 == st.1 || r.2.s() == spec_orient(cd.s(), cand.s()));
        }
        r
    }
}

/// Box versus box, by the separating-axis theorem over the fifteen
/// candidate axes.
#[verifier::rlimit(100)]
pub fn rect_rect(a: &Rectangle, b: &Rectangle) -> (r: Option<Vec3>)
    requires
        a.wf(),
        b.wf(),
    ensures
        opt_s(r) == spec_rect_rect(*a, *b),
        r is None <==> spec_separated(*a, *b),
{
    let axes_a = axes_of(a);
    let axes_b = axes_of(b);
    let cd = b.position.vsub(&a.position);
    let st0: (i64, Vec3) = (0x7fff_ffff_ffff_ffff, Vec3::zero());
    let s1 = sat_step(a, b, &axes_a, &axes_b, &cd, st0, axes_a.0);
    if s1.0 {
        return None;
    }
    let s2 = sat_step(a, b, &axes_a, &axes_b, &cd, (s1.1, s1.2), axes_a.1);
    if s2.0 {
        return None;
    }
    let s3 = sat_step(a, b, &axes_a, &axes_b, &cd, (s2.1, s2.2), axes_a.2);
    if s3.0 {
        return None;
    }
    let s4 = sat_step(a, b, &axes_a, &axes_b, &cd, (s3.1, s3.2), axes_b.0);
    if s4.0 {
        return None;
    }
    let s5 = sat_step(a, b, &axes_a, &axes_b, &cd, (s4.1, s4.2), axes_b.1);
    if s5.0 {
        return None;
    }
    let s6 = sat_step(a, b, &axes_a, &axes_b, &cd, (s5.1, s5.2), axes_b.2);
    if s6.0 {
        return None;
    }
    let s7 = cross_step(a, b, &axes_a, &axes_b, &cd, (s6.1, s6.2), axes_a.0, axes_b.0);
    if s7.0 {
        return None;
    }
    let s8 = cross_step(a, b, &axes_a, &axes_b, &cd, (s7.1, s7.2), axes_a.0, axes_b.1);
    if s8.0 {
        return None;
    }
    let s9 = cross_step(a, b, &axes_a, &axes_b, &cd, (s8.1, s8.2), axes_a.0, axes_b.2);
    if s9.0 {
        return None;
    }
    let s10 = cross_step(a, b, &axes_a, &axes_b, &cd, (s9.1, s9.2), axes_a.1, axes_b.0);
    if s10.0 {
        return None;
    }
    let s11 = cross_step(a, b, &axes_a, &axes_b, &cd, (s10.1, s10.2), axes_a.1, axes_b.1);
    if s11.0 {
        return None;
    }
    let s12 = cross_step(a, b, &axes_a, &axes_b, &cd, (s11.1, s11.2), axes_a.1, axes_b.2);
    if s12.0 {
        return None;
    }
    let s13 = cross_step(a, b, &axes_a, &axes_b, &cd, (s12.1, s12.2), axes_a.2, axes_b.0);
    if s13.0 {
        return None;
    }
    let s14 = cross_step(a, b, &axes_a, &axes_b, &cd, (s13.1, s13.2), axes_a.2, axes_b.1);
    if s14.0 {
        return None;
    }
    let s15 = cross_step(a, b, &axes_a, &axes_b, &cd, (s14.1, s14.2), axes_a.2, axes_b.2);
    if s15.0 {
        return None;
    }
    let best: i64 = s15.1;
    let axis: Vec3 = s15.2;
    proof {
        assert((best as int, axis.s()) == spec_sat_state(*a, *b));
        lemma_scale_unit(axis.s(), best as int, 0x1_0000_0000);
    }
    let mtv = axis.vscale_q(best);
    Some(mtv.vneg())
}

/// Reversing a difference vector keeps its squared length.
proof fn lemma_flip_dot(p: (int, int, int), q: (int, int, int))
    by (nonlinear_arith)
    ensures
        spec_dot(spec_sub(p, q), spec_sub(p, q)) == spec_dot(spec_sub(q, p), spec_sub(q, p)),
{
}

/// Shapes the engine accepts.
pub open spec fn collider_wf(c: Collider) -> bool {
    match c {
        Collider::Rectangle(r) => r.wf(),
        Collider::Sphere(s) => s.wf(),
    }
}

/// The engine's result, as a mathematical function of the two shapes.
pub open spec fn spec_collide(this: Collider, other: Collider) -> Option<(int, int, int)> {
    match (this, other) {
        (Collider::Sphere(a), Collider::Sphere(b)) => spec_sphere_sphere(a, b),
        (Collider::Rectangle(a), Collider::Rectangle(b)) => spec_rect_rect(a, b),
        (Collider::Sphere(s), Collider::Rectangle(r)) => spec_sphere_rect(s, r),
        (Collider::Rectangle(r), Collider::Sphere(s)) => spec_rect_sphere(r, s),
    }
}

/// Whether the two shapes overlap, by the test that applies to the pair:
/// center distance against radius sum for spheres, no separating candidate
/// axis for boxes, closest-point distance against the radius for the mixed
/// pairs.
pub open spec fn spec_hit(this: Collider, other: Collider) -> bool {
    match (this, other) {
        (Collider::Sphere(a), Collider::Sphere(b)) => spec_center_dist_sq(a, b) < (a.scale
            + b.scale) * (a.scale + b.scale),
        (Collider::Rectangle(a), Collider::Rectangle(b)) => !spec_separated(a, b),
        (Collider::Sphere(s), Collider::Rectangle(r)) => spec_closest_dist_sq(s, r) < s.scale
            * s.scale,
        (Collider::Rectangle(r), Collider::Sphere(s)) => spec_closest_dist_sq(s, r) < s.scale
            * s.scale,
    }
}

/// The engine's single entry point: dispatch on the pair of shape kinds.
/// `Some(v)` means the shapes overlap; add `v` to the first shape's
/// position, or subtract it from the second's, to resolve the overlap.
pub fn collide(this: Collider, other: Collider) -> (r: Option<Vec3>)
    requires
        collider_wf(this),
        collider_wf(other),
    ensures
        opt_s(r) == spec_collide(this, other),
        r is Some <==> spec_hit(this, other),
{
    match (&this, &other) {
        (Collider::Sphere(a), Collider::Sphere(b)) => sphere_sphere(a, b),
        (Collider::Rectangle(a), Collider::Rectangle(b)) => rect_rect(a, b),
        (Collider::Sphere(s), Collider::Rectangle(r)) => sphere_rect(s, r),
        (Collider::Rectangle(r), Collider::Sphere(s)) => rect_sphere(r, s),
    }
}

} // verus!

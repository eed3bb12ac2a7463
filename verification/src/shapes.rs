//! Shape model: spheres, oriented boxes, and their derived world frames.
//!
//! A box's orientation is three Euler angles in fixed-point degrees, applied
//! rotate-Z, then rotate-Y, then rotate-X, composed before translation.  The
//! derived model matrix carries the rotated, scaled local axes in its first
//! three columns and the world center in the fourth; the collision tests
//! normalize those columns fresh on every call.

use vstd::prelude::*;

use crate::num::MAX_COORD;
use crate::num::ONE;
use crate::num::abs_v;
use crate::num::div_q;
use crate::num::lemma_mul_bound;
use crate::num::mulq;
use crate::num::sdiv;
use crate::trig::ANGLE_MAX;
use crate::trig::cos_q;
use crate::trig::sin_q;
use crate::trig::spec_cos;
use crate::trig::spec_sin;
use crate::vec3::Vec3;
use crate::vec3::lemma_sdiv_le_factor;
use crate::vec3::spec_add;
use crate::vec3::spec_scale_q;
use crate::vec3::spec_sub;
use crate::vec3::vbound;

verus! {

/// Largest angle magnitude (raw) a well-formed box may carry.
pub const ANGLE_WF: i64 = 0x10_0000_0000;

/// A sphere: world center and radius (both raw fixed-point).
#[derive(Clone, Copy, Debug, PartialEq, Eq, Structural)]
pub struct Sphere {
    pub position: Vec3,
    pub scale: i64,
}

/// An oriented box: world center, half-extents along its own axes, and
/// Euler angles in fixed-point degrees.
#[derive(Clone, Copy, Debug, PartialEq, Eq, Structural)]
pub struct Rectangle {
    pub position: Vec3,
    pub scale: Vec3,
    pub x_angle: i64,
    pub y_angle: i64,
    pub z_angle: i64,
}

/// The affine part of a model matrix: three axis columns and the center.
/// The projective bottom row is constant and not represented.
#[derive(Clone, Copy, Debug, PartialEq, Eq, Structural)]
pub struct Mat4 {
    pub c0: Vec3,
    pub c1: Vec3,
    pub c2: Vec3,
    pub c3: Vec3,
}

/// The two convex primitives the engine understands.
#[derive(Clone, Copy, Debug)]
pub enum Collider {
    Rectangle(Rectangle),
    Sphere(Sphere),
}

impl From<Rectangle> for Collider {
    fn from(value: Rectangle) -> (r: Collider) {
        Collider::Rectangle(value)
    }
}

impl vstd::std_specs::convert::FromSpecImpl<Rectangle> for Collider {
    open spec fn obeys_from_spec() -> bool {
        true
    }

    open spec fn from_spec(value: Rectangle) -> Collider {
        Collider::Rectangle(value)
    }
}

impl From<Sphere> for Collider {
    fn from(value: Sphere) -> (r: Collider) {
        Collider::Sphere(value)
    }
}

impl vstd::std_specs::convert::FromSpecImpl<Sphere> for Collider {
    open spec fn obeys_from_spec() -> bool {
        true
    }

    open spec fn from_spec(value: Sphere) -> Collider {
        Collider::Sphere(value)
    }
}

/// The three rotation columns of `Rz * Ry * Rx`, in fixed point.
#[verifier::opaque]
pub open spec fn spec_rot_cols(ax: int, ay: int, az: int) -> (
    (int, int, int),
    (int, int, int),
    (int, int, int),
) {
    let sx = spec_sin(ax);
    let cx = spec_cos(ax);
    let sy = spec_sin(ay);
    let cy = spec_cos(ay);
    let sz = spec_sin(az);
    let cz = spec_cos(az);
    (
        (mulq(cz, cy), mulq(sz, cy), -sy),
        (
            mulq(mulq(cz, sy), sx) - mulq(sz, cx),
            mulq(mulq(sz, sy), sx) + mulq(cz, cx),
            mulq(cy, sx),
        ),
        (
            mulq(mulq(cz, sy), cx) + mulq(sz, sx),
            mulq(mulq(sz, sy), cx) - mulq(cz, sx),
            mulq(cy, cx),
        ),
    )
}

/// Derive the rotation columns for a triple of angles.
pub fn rot_cols(ax: i64, ay: i64, az: i64) -> (r: (Vec3, Vec3, Vec3))
    requires
        abs_v(ax as int) <= ANGLE_WF as int,
        abs_v(ay as int) <= ANGLE_WF as int,
        abs_v(az as int) <= ANGLE_WF as int,
    ensures
        (r.0.s(), r.1.s(), r.2.s()) == spec_rot_cols(ax as int, ay as int, az as int),
        r.0.bounded(2 * ONE),
        r.1.bounded(2 * ONE),
        r.2.bounded(2 * ONE),
{
    proof {
        reveal(spec_rot_cols);
    }
    let sx: i64 = sin_q(ax);
    let cx: i64 = cos_q(ax);
    let sy: i64 = sin_q(ay);
    let cy: i64 = cos_q(ay);
    let sz: i64 = sin_q(az);
    let cz: i64 = cos_q(az);
    let czsy: i64 = mul_q(cz, sy);
    let szsy: i64 = mul_q(sz, sy);
    let c0 = Vec3::new(mul_q(cz, cy), mul_q(sz, cy), -sy);
    let c1 = Vec3::new(
        mul_q(czsy, sx) - mul_q(sz, cx),
        mul_q(szsy, sx) + mul_q(cz, cx),
        mul_q(cy, sx),
    );
    let c2 = Vec3::new(
        mul_q(czsy, cx) + mul_q(sz, sx),
        mul_q(szsy, cx) - mul_q(cz, sx),
        mul_q(cy, cx),
    );
    (c0, c1, c2)
}

/// Fixed-point product of two scalars no larger than `2 * ONE` in magnitude.
pub fn mul_q(a: i64, b: i64) -> (r: i64)
    requires
        abs_v(a as int) <= 2 * ONE,
        abs_v(b as int) <= 2 * ONE,
    ensures
        r == mulq(a as int, b as int),
        abs_v(a as int) <= ONE && abs_v(b as int) <= ONE ==> abs_v(r as int) <= ONE as int,
{
    proof {
        lemma_mul_bound(a as int, b as int, 0x2_0000, 0x2_0000);
        if abs_v(a as int) <= ONE && abs_v(b as int) <= ONE {
            lemma_mul_bound(a as int, b as int, 0x1_0000, 0x1_0000);
            lemma_sdiv_le_factor(a as int * b as int, 0x1_0000, 0x1_0000);
        }
    }
    div_q(a * b, ONE)
}

/// Apply rotation columns to a vector: `v.x * c0 + v.y * c1 + v.z * c2`,
/// each product rescaled by `ONE`.
pub open spec fn spec_rot_apply(
    cols: ((int, int, int), (int, int, int), (int, int, int)),
    v: (int, int, int),
) -> (int, int, int) {
    spec_add(
        spec_add(spec_scale_q(cols.0, v.0), spec_scale_q(cols.1, v.1)),
        spec_scale_q(cols.2, v.2),
    )
}

/// Apply rotation columns to a bounded vector.
pub fn rot_apply(cols: &(Vec3, Vec3, Vec3), v: &Vec3) -> (r: Vec3)
    requires
        cols.0.bounded(2 * ONE),
        cols.1.bounded(2 * ONE),
        cols.2.bounded(2 * ONE),
        v.bounded(2 * MAX_COORD),
    ensures
        r.s() == spec_rot_apply((cols.0.s(), cols.1.s(), cols.2.s()), v.s()),
{
    let t0 = cols.0.vscale_q(v.x);
    let t1 = cols.1.vscale_q(v.y);
    let t2 = cols.2.vscale_q(v.z);
    proof {
        lemma_scale_small(cols.0.s(), v.x as int);
        lemma_scale_small(cols.1.s(), v.y as int);
        lemma_scale_small(cols.2.s(), v.z as int);
    }
    t0.vadd(&t1).vadd(&t2)
}

/// A rotation column scaled by a coordinate stays comfortably bounded.
proof fn lemma_scale_small(c: (int, int, int), s: int)
    requires
        vbound(c, 2 * ONE),
        abs_v(s) <= 2 * MAX_COORD,
    ensures
        vbound(spec_scale_q(c, s), 4 * MAX_COORD),
{
    lemma_mul_bound(c.0, s, 0x2_0000, 0x1000_0000);
    lemma_mul_bound(c.1, s, 0x2_0000, 0x1000_0000);
    lemma_mul_bound(c.2, s, 0x2_0000, 0x1000_0000);
    lemma_sdiv_le_factor(c.0 * s, 0x1_0000, 0x2000_0000);
    lemma_sdiv_le_factor(c.1 * s, 0x1_0000, 0x2000_0000);
    lemma_sdiv_le_factor(c.2 * s, 0x1_0000, 0x2000_0000);
}

impl Sphere {
    /// Shapes the engine accepts: bounded center, nonnegative bounded radius.
    pub open spec fn wf(self) -> bool {
        self.position.bounded(MAX_COORD as int) && 0 <= self.scale <= MAX_COORD
    }

    /// The unit sphere at the origin.
    pub fn new() -> (r: Sphere)
        ensures
            r.position.s() == (0int, 0int, 0int),
            r.scale == ONE,
            r.wf(),
    {
        Sphere { position: Vec3::zero(), scale: ONE }
    }

    /// World transform: uniform scale then translation (spheres ignore
    /// orientation).
    pub fn get_model(&self) -> (r: Mat4)
        requires
            self.wf(),
        ensures
            r.c0.s() == (self.scale as int, 0int, 0int),
            r.c1.s() == (0int, self.scale as int, 0int),
            r.c2.s() == (0int, 0int, self.scale as int),
            r.c3 == self.position,
    {
        Mat4 {
            c0: Vec3::new(self.scale, 0, 0),
            c1: Vec3::new(0, self.scale, 0),
            c2: Vec3::new(0, 0, self.scale),
            c3: self.position,
        }
    }

    /// Rotate the center around `point` by Euler angles (Z, then Y, then X);
    /// the sphere itself is rotation-invariant.
    pub fn rotate_from_point(&mut self, point: Vec3, rotation_angles: Vec3)
        requires
            old(self).position.bounded(MAX_COORD as int),
            point.bounded(MAX_COORD as int),
            rotation_angles.bounded(ANGLE_WF as int),
        ensures
            final(self).position.s() == spec_add(
                spec_rot_apply(
                    spec_rot_cols(
                        rotation_angles.x as int,
                        rotation_angles.y as int,
                        rotation_angles.z as int,
                    ),
                    spec_sub(old(self).position.s(), point.s()),
                ),
                point.s(),
            ),
            final(self).scale == old(self).scale,
    {
        let cols = rot_cols(rotation_angles.x, rotation_angles.y, rotation_angles.z);
        let translated = self.position.vsub(&point);
        let rotated = rot_apply(&cols, &translated);
        proof {
            lemma_scale_small(cols.0.s(), translated.x as int);
            lemma_scale_small(cols.1.s(), translated.y as int);
            lemma_scale_small(cols.2.s(), translated.z as int);
        }
        self.position = rotated.vadd(&point);
    }
}

impl Rectangle {
    /// Shapes the engine accepts: bounded center, nonnegative bounded
    /// half-extents, bounded angles.
    pub open spec fn wf(self) -> bool {
        &&& self.position.bounded(MAX_COORD as int)
        &&& 0 <= self.scale.x <= MAX_COORD
        &&& 0 <= self.scale.y <= MAX_COORD
        &&& 0 <= self.scale.z <= MAX_COORD
        &&& abs_v(self.x_angle as int) <= ANGLE_WF as int
        &&& abs_v(self.y_angle as int) <= ANGLE_WF as int
        &&& abs_v(self.z_angle as int) <= ANGLE_WF as int
    }

    /// The axis-aligned unit box at the origin.
    pub fn new() -> (r: Rectangle)
        ensures
            r.position.s() == (0int, 0int, 0int),
            r.scale.s() == (ONE as int, ONE as int, ONE as int),
            r.x_angle == 0 && r.y_angle == 0 && r.z_angle == 0,
            r.wf(),
    {
        Rectangle {
            position: Vec3::zero(),
            scale: Vec3::new(ONE, ONE, ONE),
            x_angle: 0,
            y_angle: 0,
            z_angle: 0,
        }
    }

    /// The model matrix columns: rotated local axes scaled by the
    /// half-extents, and the world center.
    #[verifier::opaque]
    pub open spec fn spec_model(self) -> (
        (int, int, int),
        (int, int, int),
        (int, int, int),
        (int, int, int),
    ) {
        let cols = spec_rot_cols(self.x_angle as int, self.y_angle as int, self.z_angle as int);
        (
            spec_scale_q(cols.0, self.scale.x as int),
            spec_scale_q(cols.1, self.scale.y as int),
            spec_scale_q(cols.2, self.scale.z as int),
            self.position.s(),
        )
    }

    /// World transform: translation, rotation Z-Y-X, then scale.
    pub fn get_model(&self) -> (r: Mat4)
        requires
            self.wf(),
        ensures
            (r.c0.s(), r.c1.s(), r.c2.s(), r.c3.s()) == self.spec_model(),
            r.c0.bounded(4 * MAX_COORD),
            r.c1.bounded(4 * MAX_COORD),
            r.c2.bounded(4 * MAX_COORD),
            r.c3.bounded(MAX_COORD as int),
    {
        let cols = rot_cols(self.x_angle, self.y_angle, self.z_angle);
        proof {
            reveal(Rectangle::spec_model);
            lemma_scale_small(cols.0.s(), self.scale.x as int);
            lemma_scale_small(cols.1.s(), self.scale.y as int);
            lemma_scale_small(cols.2.s(), self.scale.z as int);
        }
        Mat4 {
            c0: cols.0.vscale_q(self.scale.x),
            c1: cols.1.vscale_q(self.scale.y),
            c2: cols.2.vscale_q(self.scale.z),
            c3: self.position,
        }
    }

    /// Rotate the center around `point` and accumulate the Euler angles.
    pub fn rotate_from_point(&mut self, point: Vec3, rotation_angles: Vec3)
        requires
            old(self).position.bounded(MAX_COORD as int),
            point.bounded(MAX_COORD as int),
            rotation_angles.bounded(ANGLE_WF as int),
            abs_v(old(self).x_angle as int) <= ANGLE_WF as int,
            abs_v(old(self).y_angle as int) <= ANGLE_WF as int,
            abs_v(old(self).z_angle as int) <= ANGLE_WF as int,
        ensures
            final(self).position.s() == spec_add(
                spec_rot_apply(
                    spec_rot_cols(
                        rotation_angles.x as int,
                        rotation_angles.y as int,
                        rotation_angles.z as int,
                    ),
                    spec_sub(old(self).position.s(), point.s()),
                ),
                point.s(),
            ),
            final(self).x_angle == old(self).x_angle + rotation_angles.x,
            final(self).y_angle == old(self).y_angle + rotation_angles.y,
            final(self).z_angle == old(self).z_angle + rotation_angles.z,
            final(self).scale == old(self).scale,
    {
        let cols = rot_cols(rotation_angles.x, rotation_angles.y, rotation_angles.z);
        let translated = self.position.vsub(&point);
        let rotated = rot_apply(&cols, &translated);
        proof {
            lemma_scale_small(cols.0.s(), translated.x as int);
            lemma_scale_small(cols.1.s(), translated.y as int);
            lemma_scale_small(cols.2.s(), translated.z as int);
        }
        self.position = rotated.vadd(&point);
        self.x_angle = self.x_angle + rotation_angles.x;
        self.y_angle = self.y_angle + rotation_angles.y;
        self.z_angle = self.z_angle + rotation_angles.z;
    }
}

} // verus!

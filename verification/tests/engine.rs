//! End-to-end checks of the collision engine on concrete shapes.
//!
//! All coordinates are raw fixed-point values: one world unit is
//! `ONE == 65536` raw units.

use narrowphase::collision::collide;
use narrowphase::num::ONE;
use narrowphase::shapes::Collider;
use narrowphase::shapes::Rectangle;
use narrowphase::shapes::Sphere;
use narrowphase::vec3::Vec3;

fn sphere_at(x: i64, y: i64, z: i64, radius: i64) -> Sphere {
    let mut s = Sphere::new();
    s.position = Vec3 { x, y, z };
    s.scale = radius;
    s
}

fn box_at(x: i64, y: i64, z: i64) -> Rectangle {
    let mut r = Rectangle::new();
    r.position = Vec3 { x, y, z };
    r
}

/// Separated spheres give no collision: distance 3 against radius sum 2.
#[test]
fn spheres_apart_none() {
    let a = sphere_at(0, 0, 0, ONE);
    let b = sphere_at(3 * ONE, 0, 0, ONE);
    assert_eq!(collide(Collider::Sphere(a), Collider::Sphere(b)), None);
}

/// Exactly touching spheres count as separated.
#[test]
fn spheres_touching_none() {
    let a = sphere_at(0, 0, 0, ONE);
    let b = sphere_at(2 * ONE, 0, 0, ONE);
    assert_eq!(collide(Collider::Sphere(a), Collider::Sphere(b)), None);
}

/// Unit spheres one unit apart: penetration 1 along -x, exactly.
#[test]
fn spheres_overlap_unit_mtv() {
    let a = sphere_at(0, 0, 0, ONE);
    let b = sphere_at(ONE, 0, 0, ONE);
    let v = collide(Collider::Sphere(a), Collider::Sphere(b)).unwrap();
    assert_eq!(v, Vec3 { x: -ONE, y: 0, z: 0 });
}

/// Axis-aligned unit boxes three units apart are separated along x.
#[test]
fn boxes_apart_none() {
    let a = box_at(0, 0, 0);
    let b = box_at(3 * ONE, 0, 0);
    assert_eq!(collide(Collider::Rectangle(a), Collider::Rectangle(b)), None);
}

/// Axis-aligned unit boxes one unit apart: overlap 1 along the x axis.
#[test]
fn boxes_overlap_unit_mtv() {
    let a = box_at(0, 0, 0);
    let b = box_at(ONE, 0, 0);
    let v = collide(Collider::Rectangle(a), Collider::Rectangle(b)).unwrap();
    assert_eq!(v, Vec3 { x: -ONE, y: 0, z: 0 });
}

/// A small sphere at a box's center collides; the reported penetration is
/// the sphere's radius (the closest box point is the center itself, at
/// distance zero), along the fixed fallback direction.
#[test]
fn sphere_inside_box_center() {
    let s = sphere_at(0, 0, 0, 6554);
    let r = box_at(0, 0, 0);
    let v = collide(Collider::Sphere(s), Collider::Rectangle(r)).unwrap();
    assert_eq!(v, Vec3 { x: 6554, y: 0, z: 0 });
}

/// Swapping sphere arguments negates the MTV.
#[test]
fn sphere_order_negates() {
    let a = sphere_at(0, 0, 0, ONE);
    let b = sphere_at(ONE, ONE / 2, 0, ONE);
    let v1 = collide(Collider::Sphere(a), Collider::Sphere(b)).unwrap();
    let v2 = collide(Collider::Sphere(b), Collider::Sphere(a)).unwrap();
    assert_eq!(v2, Vec3 { x: -v1.x, y: -v1.y, z: -v1.z });
}

/// Swapping box arguments negates the MTV (least overlap unique here).
#[test]
fn box_order_negates() {
    let a = box_at(0, 0, 0);
    let b = box_at(ONE, ONE / 4, 0);
    let v1 = collide(Collider::Rectangle(a), Collider::Rectangle(b)).unwrap();
    let v2 = collide(Collider::Rectangle(b), Collider::Rectangle(a)).unwrap();
    assert_eq!(v1, Vec3 { x: -ONE, y: 0, z: 0 });
    assert_eq!(v2, Vec3 { x: ONE, y: 0, z: 0 });
}

/// The mixed pair: box-first returns the negation of sphere-first.
#[test]
fn sphere_box_order_negates() {
    let s = sphere_at(3 * ONE / 2, 0, 0, ONE);
    let r = box_at(0, 0, 0);
    let v1 = collide(Collider::Sphere(s), Collider::Rectangle(r)).unwrap();
    let v2 = collide(Collider::Rectangle(r), Collider::Sphere(s)).unwrap();
    assert_eq!(v1, Vec3 { x: ONE / 2, y: 0, z: 0 });
    assert_eq!(v2, Vec3 { x: -ONE / 2, y: 0, z: 0 });
}

/// Applying the sphere MTV once separates the spheres exactly.
#[test]
fn sphere_mtv_resolves() {
    let a = sphere_at(0, 0, 0, ONE);
    let b = sphere_at(ONE, 0, 0, ONE);
    let v = collide(Collider::Sphere(a), Collider::Sphere(b)).unwrap();
    let moved = sphere_at(v.x, v.y, v.z, ONE);
    assert_eq!(collide(Collider::Sphere(moved), Collider::Sphere(b)), None);
}

/// Applying the box MTV once leaves at most an exactly-touching contact,
/// whose MTV is the zero vector.
#[test]
fn box_mtv_resolves_to_touching() {
    let a = box_at(0, 0, 0);
    let b = box_at(ONE, 0, 0);
    let v = collide(Collider::Rectangle(a), Collider::Rectangle(b)).unwrap();
    let moved = box_at(v.x, v.y, v.z);
    let again = collide(Collider::Rectangle(moved), Collider::Rectangle(b));
    assert_eq!(again, Some(Vec3 { x: 0, y: 0, z: 0 }));
}

/// Applying the sphere-box MTV once separates the pair.
#[test]
fn sphere_box_mtv_resolves() {
    let s = sphere_at(3 * ONE / 2, 0, 0, ONE);
    let r = box_at(0, 0, 0);
    let v = collide(Collider::Sphere(s), Collider::Rectangle(r)).unwrap();
    let moved = sphere_at(3 * ONE / 2 + v.x, v.y, v.z, ONE);
    assert_eq!(collide(Collider::Sphere(moved), Collider::Rectangle(r)), None);
}

/// Applying the MTV for an off-axis (diagonal) sphere pair leaves at most
/// a residual overlap of a few raw units (fixed-point rounding).
#[test]
fn sphere_mtv_resolves_diagonal() {
    let a = sphere_at(0, 0, 0, ONE);
    let b = sphere_at(ONE, ONE, 0, ONE);
    let v = collide(Collider::Sphere(a), Collider::Sphere(b)).unwrap();
    let moved = sphere_at(v.x, v.y, v.z, ONE);
    match collide(Collider::Sphere(moved), Collider::Sphere(b)) {
        None => {}
        Some(res) => assert!(res.x.abs() + res.y.abs() + res.z.abs() <= 8, "residual {res:?}"),
    }
}

/// Exactly coincident sphere centers fall back to the fixed +x direction
/// and report the full radius sum.
#[test]
fn coincident_spheres_fallback() {
    let a = sphere_at(0, 0, 0, ONE);
    let b = sphere_at(0, 0, 0, ONE);
    let v = collide(Collider::Sphere(a), Collider::Sphere(b)).unwrap();
    assert_eq!(v, Vec3 { x: -2 * ONE, y: 0, z: 0 });
}

/// Identical boxes (every cross product degenerate) still produce a
/// finite MTV along the first face axis.
#[test]
fn identical_boxes_parallel_axes() {
    let a = box_at(0, 0, 0);
    let b = box_at(0, 0, 0);
    let v = collide(Collider::Rectangle(a), Collider::Rectangle(b)).unwrap();
    assert_eq!(v, Vec3 { x: -2 * ONE, y: 0, z: 0 });
}

/// Zero-radius and zero-extent degenerate shapes are accepted.
#[test]
fn degenerate_sizes_accepted() {
    let p = sphere_at(0, 0, 0, 0);
    let b = sphere_at(ONE / 2, 0, 0, ONE);
    // A point inside a sphere still collides; a point outside does not.
    assert!(collide(Collider::Sphere(p), Collider::Sphere(b)).is_some());
    let far = sphere_at(3 * ONE, 0, 0, 0);
    assert_eq!(collide(Collider::Sphere(far), Collider::Sphere(b)), None);
    let mut flat = box_at(0, 0, 0);
    flat.scale = Vec3 { x: 0, y: 0, z: 0 };
    // Degenerate box columns take the fallback axis; the call must still
    // return a finite answer rather than fault.
    let _ = collide(Collider::Rectangle(flat), Collider::Rectangle(box_at(0, 0, 0)));
}

/// An axis-aligned box against one rotated 45 degrees about z.  The
/// rotated box's corner reaches about 1.414 units, so a center distance
/// of 2.5 clears it and 2.2 leaves the x face axis as the least-overlap
/// axis (about 0.214 units deep, toward -x for the first box).
#[test]
fn rotated_boxes_least_axis() {
    let a = box_at(0, 0, 0);
    let mut b = box_at(5 * ONE / 2, 0, 0);
    b.z_angle = 45 * ONE;
    assert_eq!(collide(Collider::Rectangle(a), Collider::Rectangle(b)), None);
    let mut c = box_at(11 * ONE / 5, 0, 0);
    c.z_angle = 45 * ONE;
    let v = collide(Collider::Rectangle(a), Collider::Rectangle(c)).unwrap();
    assert!(-15000 < v.x && v.x < -13000, "mtv {v:?}");
    assert_eq!((v.y, v.z), (0, 0));
}

/// A box rotated 45 degrees about z against spheres on the x axis:
/// the rotated corner reaches about 1.414 units, so a unit sphere at
/// distance 3 misses and one at distance 2 hits.  The hit values are the
/// engine's exact fixed-point results for this configuration.
#[test]
fn rotated_box_sphere() {
    let mut r = box_at(0, 0, 0);
    r.z_angle = 45 * ONE;
    let far = sphere_at(3 * ONE, 0, 0, ONE);
    assert_eq!(collide(Collider::Sphere(far), Collider::Rectangle(r)), None);
    let near = sphere_at(2 * ONE, 0, 0, ONE);
    let v = collide(Collider::Sphere(near), Collider::Rectangle(r)).unwrap();
    assert_eq!(v, Vec3 { x: 27146, y: 0, z: 0 });
}

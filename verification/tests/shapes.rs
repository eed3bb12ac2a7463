//! Checks of the shape model: constructors, conversions, world transforms
//! and the fixed-point trigonometry they rest on.

use narrowphase::num::ONE;
use narrowphase::render::Shader;
use narrowphase::shapes::Collider;
use narrowphase::shapes::Rectangle;
use narrowphase::shapes::Sphere;
use narrowphase::trig::cos_q;
use narrowphase::trig::sin_q;
use narrowphase::vec3::Vec3;

#[test]
fn sphere_defaults() {
    let s = Sphere::new();
    assert_eq!(s.position, Vec3 { x: 0, y: 0, z: 0 });
    assert_eq!(s.scale, ONE);
}

#[test]
fn rectangle_defaults() {
    let r = Rectangle::new();
    assert_eq!(r.position, Vec3 { x: 0, y: 0, z: 0 });
    assert_eq!(r.scale, Vec3 { x: ONE, y: ONE, z: ONE });
    assert_eq!((r.x_angle, r.y_angle, r.z_angle), (0, 0, 0));
}

#[test]
fn collider_from_shapes() {
    let s = Sphere::new();
    let r = Rectangle::new();
    assert!(matches!(Collider::from(s), Collider::Sphere(_)));
    assert!(matches!(Collider::from(r), Collider::Rectangle(_)));
}

/// The sine is exact at the quarter turns and antisymmetric across the
/// half turn; the cosine is the shifted sine.
#[test]
fn trig_quarter_turns() {
    assert_eq!(sin_q(0), 0);
    assert_eq!(sin_q(90 * ONE), ONE);
    assert_eq!(sin_q(180 * ONE), 0);
    assert_eq!(sin_q(270 * ONE), -ONE);
    assert_eq!(cos_q(0), ONE);
    assert_eq!(cos_q(90 * ONE), 0);
    assert_eq!(cos_q(180 * ONE), -ONE);
    assert_eq!(sin_q(-90 * ONE), -ONE);
    assert_eq!(sin_q(360 * ONE + 90 * ONE), ONE);
}

/// Bhaskara's sine stays within 0.002 of the real sine across the circle.
#[test]
fn trig_accuracy() {
    let mut deg: i64 = 0;
    while deg <= 360 {
        let s = sin_q(deg * ONE) as f64 / ONE as f64;
        let exact = (deg as f64).to_radians().sin();
        assert!((s - exact).abs() < 0.002, "sin {} was {}", deg, s);
        deg += 5;
    }
}

/// An unrotated box's model is the identity frame scaled by the
/// half-extents, translated to the center.
#[test]
fn model_of_unrotated_box() {
    let mut r = Rectangle::new();
    r.position = Vec3 { x: 5 * ONE, y: 0, z: 0 };
    r.scale = Vec3 { x: 2 * ONE, y: ONE, z: ONE };
    let m = r.get_model();
    assert_eq!(m.c0, Vec3 { x: 2 * ONE, y: 0, z: 0 });
    assert_eq!(m.c1, Vec3 { x: 0, y: ONE, z: 0 });
    assert_eq!(m.c2, Vec3 { x: 0, y: 0, z: ONE });
    assert_eq!(m.c3, r.position);
}

/// Rotating a sphere a quarter turn about z around the origin carries
/// (1, 0, 0) to (0, 1, 0) exactly.
#[test]
fn rotate_sphere_quarter_turn() {
    let mut s = Sphere::new();
    s.position = Vec3 { x: ONE, y: 0, z: 0 };
    s.rotate_from_point(Vec3 { x: 0, y: 0, z: 0 }, Vec3 { x: 0, y: 0, z: 90 * ONE });
    assert_eq!(s.position, Vec3 { x: 0, y: ONE, z: 0 });
}

/// Rotating a box accumulates its Euler angles.
#[test]
fn rotate_box_accumulates_angles() {
    let mut r = Rectangle::new();
    r.rotate_from_point(Vec3 { x: 0, y: 0, z: 0 }, Vec3 { x: 10 * ONE, y: 0, z: 45 * ONE });
    assert_eq!(r.x_angle, 10 * ONE);
    assert_eq!(r.z_angle, 45 * ONE);
    assert_eq!(r.position, Vec3 { x: 0, y: 0, z: 0 });
}

#[test]
fn shader_starts_empty() {
    let sh = Shader::new();
    assert_eq!((sh.id, sh.cnt), (0, 0));
}

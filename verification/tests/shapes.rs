use raytrace::scalar::Scalar;
use raytrace::shapes::_3d::{Tetrahedron, TriangularPlane};
use raytrace::shapes::nd::{HyperCube, HyperPlane, HyperRectangle, HyperSphere};
use raytrace::shapes::Shape;
use raytrace::{Ray, Raytrace, RaytraceWithNorm};

fn ints(xs: &[i64]) -> Vec<Scalar> {
    xs.iter().map(|&x| Scalar::from_int(x)).collect()
}

fn ray(r: &[i64], v: &[i64]) -> Ray {
    Ray { r: ints(r), v: ints(v) }
}

fn assert_norm_is(res: &RaytraceWithNorm, expect: &[i64]) {
    let n = res.n.as_ref().expect("a normal was expected");
    assert_eq!(n.len(), expect.len());
    for (a, b) in n.iter().zip(ints(expect).iter()) {
        assert!(a.eq_val(b));
    }
}

#[test]
fn it_works() {
}

#[test]
fn test() {
    let shape = raytrace::shapes::_2d::Circle::new(ints(&[0, 0]), Scalar::from_int(1));
    let _ = shape;
}

#[test]
fn rectangle_test() {
    let shape = raytrace::shapes::_2d::Rectangle { c1: ints(&[-1, -1]), c2: ints(&[1, 1]) };
    let _ = shape;
}

#[test]
fn plane_test() {
    let shape = raytrace::shapes::_3d::Plane { r: ints(&[0, 0, 0]), n: ints(&[1, 1, 1]) };
    let _ = shape;
}

#[test]
fn sphere_straight_on() {
    // A unit sphere at the origin, a ray from five units down the axis.
    let sphere = HyperSphere::new(ints(&[0, 0, 0]), Scalar::from_int(1));
    let r = ray(&[0, 0, -5], &[0, 0, 1]);
    let hit = sphere.raytrace(&r);
    assert!(hit.is_hit());
    assert!(hit.t.eq_val(&Scalar::from_int(4)));
    let with_norm = sphere.raytrace_with_norm(&r);
    assert!(with_norm.raytrace.t.eq_val(&Scalar::from_int(4)));
    assert_norm_is(&with_norm, &[0, 0, -1]);
}

#[test]
fn sphere_pointing_away_misses() {
    let sphere = HyperSphere::new(ints(&[0, 0, 0]), Scalar::from_int(1));
    let r = ray(&[0, 0, -5], &[0, 0, -1]);
    let hit = sphere.raytrace(&r);
    assert!(hit.is_miss());
    assert!(!hit.t.is_finite());
    let with_norm = sphere.raytrace_with_norm(&r);
    assert!(with_norm.n.is_none());
    assert!(with_norm.is_miss());
}

#[test]
fn sphere_from_inside() {
    // The origin sits inside; the far root is taken.
    let sphere = HyperSphere::new(ints(&[0, 0, 0]), Scalar::from_int(2));
    let r = ray(&[0, 0, 0], &[0, 0, 1]);
    let hit = sphere.raytrace(&r);
    assert!(hit.is_hit());
    assert!(hit.t.eq_val(&Scalar::from_int(2)));
}

#[test]
fn rectangle_straight_on() {
    let rect = HyperRectangle { c1: ints(&[-1, -1, -1]), c2: ints(&[1, 1, 1]) };
    let r = ray(&[0, 0, -5], &[0, 0, 1]);
    let hit = rect.raytrace(&r);
    assert!(hit.is_hit());
    assert!(hit.t.eq_val(&Scalar::from_int(4)));
    let with_norm = rect.raytrace_with_norm(&r);
    assert!(with_norm.raytrace.t.eq_val(&Scalar::from_int(4)));
    assert_norm_is(&with_norm, &[0, 0, -1]);
}

#[test]
fn rectangle_from_inside_points_inward() {
    let rect = HyperRectangle { c1: ints(&[-1, -1, -1]), c2: ints(&[1, 1, 1]) };
    let r = ray(&[0, 0, 0], &[0, 0, 1]);
    let with_norm = rect.raytrace_with_norm(&r);
    assert!(with_norm.raytrace.t.eq_val(&Scalar::from_int(1)));
    assert_norm_is(&with_norm, &[0, 0, -1]);
}

#[test]
fn rectangle_sideways_miss() {
    let rect = HyperRectangle { c1: ints(&[-1, -1, -1]), c2: ints(&[1, 1, 1]) };
    let r = ray(&[0, 5, -5], &[0, 0, 1]);
    assert!(rect.raytrace(&r).is_miss());
    assert!(rect.raytrace_with_norm(&r).n.is_none());
}

#[test]
fn cube_matches_its_rectangle() {
    let cube = HyperCube::new(ints(&[0, 0, 0]), Scalar::from_int(1));
    let rect = cube.to_rectangle();
    let r = ray(&[0, 0, -5], &[0, 0, 1]);
    let a = cube.raytrace(&r);
    let b = rect.raytrace(&r);
    assert!(a.t.eq_val(&b.t));
    assert!(a.t.eq_val(&Scalar::from_int(4)));
}

#[test]
fn plane_straight_on() {
    let plane = HyperPlane::new(ints(&[0, 0, 0]), ints(&[0, 0, 1]));
    let r = ray(&[0, 0, -2], &[0, 0, 1]);
    let hit = plane.raytrace(&r);
    assert!(hit.is_hit());
    assert!(hit.t.eq_val(&Scalar::from_int(2)));
    let with_norm = plane.raytrace_with_norm(&r);
    assert_norm_is(&with_norm, &[0, 0, -1]);
}

#[test]
fn plane_parallel_misses() {
    let plane = HyperPlane::new(ints(&[0, 0, 0]), ints(&[0, 0, 1]));
    let r = ray(&[0, 0, -2], &[1, 0, 0]);
    assert!(plane.raytrace(&r).is_miss());
}

#[test]
fn plane_hit_lies_on_plane() {
    // Round trip: the propagated hit point satisfies the plane equation.
    let plane = HyperPlane::new(ints(&[0, 0, 3]), ints(&[2, 1, 5]));
    let r = ray(&[1, 2, -7], &[0, 1, 3]);
    let hit = plane.raytrace(&r);
    assert!(hit.is_hit());
    let x = r.propagate(&hit.t);
    let diff = raytrace::vector::sub(&x, &plane.r);
    let d = raytrace::vector::mul_dot(&diff, &plane.n);
    assert!(d.is_zero());
}

#[test]
fn composite_takes_nearer_sphere() {
    // Two separated spheres along one ray: the composite reports the nearer
    // hit, with the nearer sphere's normal.
    let near = HyperSphere::new(ints(&[0, 0, 3]), Scalar::from_int(1));
    let far = HyperSphere::new(ints(&[0, 0, 10]), Scalar::from_int(1));
    let near_t = near.raytrace(&ray(&[0, 0, 0], &[0, 0, 1]));
    let far_t = far.raytrace(&ray(&[0, 0, 0], &[0, 0, 1]));
    assert!(near_t.t.eq_val(&Scalar::from_int(2)));
    assert!(far_t.t.eq_val(&Scalar::from_int(9)));
    let scene = vec![far, near];
    let r = ray(&[0, 0, 0], &[0, 0, 1]);
    let hit = scene.raytrace(&r);
    assert!(hit.t.eq_val(&Scalar::from_int(2)));
    let with_norm = scene.raytrace_with_norm(&r);
    assert!(with_norm.raytrace.t.eq_val(&Scalar::from_int(2)));
    assert_norm_is(&with_norm, &[0, 0, -1]);
}

#[test]
fn empty_composite_misses() {
    let scene: Vec<HyperSphere> = Vec::new();
    let r = ray(&[0, 0, 0], &[0, 0, 1]);
    assert!(scene.raytrace(&r).is_miss());
    assert!(scene.raytrace_with_norm(&r).n.is_none());
}

#[test]
fn min_keeps_left_on_tie() {
    let a = Raytrace::new(Scalar::from_int(3)).with_norm(ints(&[1, 0, 0]));
    let b = Raytrace::new(Scalar::from_int(3)).with_norm(ints(&[0, 1, 0]));
    let kept = a.min(b);
    assert_norm_is(&kept, &[1, 0, 0]);
}

#[test]
fn with_norm_drops_normal_on_miss() {
    let miss = Raytrace::miss().with_norm(ints(&[1, 0, 0]));
    assert!(miss.n.is_none());
    assert!(miss.is_miss());
}

#[test]
fn tetrahedron_straight_on() {
    let tet = Tetrahedron::new(ints(&[0, 0, 0]), ints(&[2, 2, 2, 2]));
    let r = ray(&[0, 0, -5], &[0, 0, 1]);
    let hit = tet.raytrace(&r);
    assert!(hit.is_hit());
    assert!(hit.t.eq_val(&Scalar::from_int(4)));
    let with_norm = tet.raytrace_with_norm(&r);
    assert!(with_norm.n.is_some());
}

#[test]
fn triangular_plane_inside_and_outside() {
    let tri = TriangularPlane::new(vec![
        ints(&[2, 0, 0]),
        ints(&[0, 2, 0]),
        ints(&[-2, -2, 0]),
    ]);
    let inside = ray(&[0, 0, -3], &[0, 0, 1]);
    let hit = tri.raytrace(&inside);
    assert!(hit.is_hit());
    assert!(hit.t.eq_val(&Scalar::from_int(3)));
    let outside = ray(&[5, 5, -3], &[0, 0, 1]);
    assert!(tri.raytrace(&outside).is_miss());
}

#[test]
fn scalar_arithmetic_is_exact() {
    let third = Scalar::ratio(1, 3);
    let sixth = Scalar::ratio(1, 6);
    let half = Scalar::ratio(1, 2);
    assert!(third.add(&sixth).eq_val(&half));
    assert!(half.mul(&half).eq_val(&Scalar::ratio(1, 4)));
    assert!(Scalar::from_int(7).div(&Scalar::from_int(2)).eq_val(&Scalar::ratio(7, 2)));
    assert!(Scalar::ratio(2, 4).eq_val(&Scalar::ratio(1, 2)));
    assert!(!Scalar::from_int(1).eq_val(&Scalar::infinity()));
}

#[test]
fn sqrt_of_perfect_squares_is_exact() {
    assert!(Scalar::from_int(4).sqrt_approx().eq_val(&Scalar::from_int(2)));
    assert!(Scalar::from_int(1).sqrt_approx().eq_val(&Scalar::from_int(1)));
    assert!(Scalar::ratio(9, 4).sqrt_approx().eq_val(&Scalar::ratio(3, 2)));
    // An inexact root still squares to no more than the input.
    let s = Scalar::from_int(2).sqrt_approx();
    assert!(s.mul(&s).le(&Scalar::from_int(2)));
    assert!(Scalar::ratio(199, 100).le(&s.mul(&s)));
}

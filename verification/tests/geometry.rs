use norays::math::aabb::Aabb;
use norays::math::bounding_volume::BoundingVolume;
use norays::math::bounding_volume::BoundingVolumeSum;
use norays::math::point::Point;
use norays::math::ray::Ray;
use norays::math::scalar::Scalar;
use norays::math::scalar::SCALE;
use norays::math::vector::Vector;
use norays::scenegraph::sphere::Sphere;

fn pt(x: i64, y: i64, z: i64) -> Point {
    Point::new(Scalar::from_int(x), Scalar::from_int(y), Scalar::from_int(z))
}

fn vec3(x: i64, y: i64, z: i64) -> Vector {
    Vector::new(Scalar::from_int(x), Scalar::from_int(y), Scalar::from_int(z))
}

#[test]
fn test_sphere_combine() {
    let s1: Sphere = Sphere::new(pt(-3, -3, 0), Scalar::from_int(1));
    let s2: Sphere = Sphere::new(pt(4, -3, 0), Scalar::from_int(2));

    let expected = Sphere::new(pt(1, -3, 0), Scalar::from_int(5));

    assert_eq!(s1.combine(&s2), expected)
}

#[test]
fn sphere_combine_is_commutative() {
    let s1 = Sphere::new(pt(-3, -3, 0), Scalar::from_int(1));
    let s2 = Sphere::new(pt(4, -3, 0), Scalar::from_int(2));
    assert_eq!(s1.combine(&s2), s2.combine(&s1));

    let s3 = Sphere::new(pt(7, 1, -2), Scalar::from_int(3));
    assert_eq!(s1.combine(&s3), s3.combine(&s1));
    assert_eq!(s2.combine(&s3), s3.combine(&s2));
}

#[test]
fn sphere_combine_of_equal_spheres_is_identity() {
    let s = Sphere::new(pt(2, -1, 3), Scalar::from_int(4));
    assert_eq!(s.combine(&s), s);
}

#[test]
fn sphere_combine_contained_keeps_larger() {
    let big = Sphere::new(pt(0, 0, 0), Scalar::from_int(5));
    let small = Sphere::new(pt(1, 0, 0), Scalar::from_int(1));
    assert_eq!(big.combine(&small), big);
    assert_eq!(small.combine(&big), big);
}

#[test]
fn aabb_combine_is_hull() {
    let a = Aabb {
        x_min: Scalar::from_int(-1),
        x_max: Scalar::from_int(1),
        y_min: Scalar::from_int(0),
        y_max: Scalar::from_int(2),
        z_min: Scalar::from_int(-3),
        z_max: Scalar::from_int(0),
    };
    let b = Aabb {
        x_min: Scalar::from_int(0),
        x_max: Scalar::from_int(4),
        y_min: Scalar::from_int(-2),
        y_max: Scalar::from_int(1),
        z_min: Scalar::from_int(-1),
        z_max: Scalar::from_int(5),
    };
    let c = a.combine(&b);
    assert_eq!(c.x_min, Scalar::from_int(-1));
    assert_eq!(c.x_max, Scalar::from_int(4));
    assert_eq!(c.y_min, Scalar::from_int(-2));
    assert_eq!(c.y_max, Scalar::from_int(2));
    assert_eq!(c.z_min, Scalar::from_int(-3));
    assert_eq!(c.z_max, Scalar::from_int(5));
    assert_eq!(a.combine(&b), b.combine(&a));
    let d = Aabb {
        x_min: Scalar::from_int(9),
        x_max: Scalar::from_int(10),
        y_min: Scalar::from_int(9),
        y_max: Scalar::from_int(10),
        z_min: Scalar::from_int(9),
        z_max: Scalar::from_int(10),
    };
    assert_eq!(a.combine(&b).combine(&d), a.combine(&b.combine(&d)));
}

#[test]
fn aabb_slab_test_hits_and_misses() {
    let cube = Aabb {
        x_min: Scalar::from_int(-1),
        x_max: Scalar::from_int(1),
        y_min: Scalar::from_int(-1),
        y_max: Scalar::from_int(1),
        z_min: Scalar::from_int(-1),
        z_max: Scalar::from_int(1),
    };
    let towards = Ray::new(pt(-5, 0, 0), vec3(1, 0, 0));
    assert!(cube.test(&towards));
    // the test is over the ray's line, so the reversed direction also passes
    let sideways = Ray::new(pt(-5, 0, 0), vec3(0, 1, 0));
    assert!(!cube.test(&sideways));
    // a zero direction component constrains the origin on that axis
    let inside_plane = Ray::new(pt(0, 0, -5), vec3(0, 0, 1));
    assert!(cube.test(&inside_plane));
    let outside_plane = Ray::new(pt(3, 0, -5), vec3(0, 0, 1));
    assert!(!cube.test(&outside_plane));
}

#[test]
fn aabb_from_points_bounds_them() {
    let pts = vec![pt(1, 2, 3), pt(-4, 0, 7), pt(2, -5, 1)];
    let bb = Aabb::from_points(&pts);
    assert_eq!(bb.x_min, Scalar::from_int(-4));
    assert_eq!(bb.x_max, Scalar::from_int(2));
    assert_eq!(bb.y_min, Scalar::from_int(-5));
    assert_eq!(bb.y_max, Scalar::from_int(2));
    assert_eq!(bb.z_min, Scalar::from_int(1));
    assert_eq!(bb.z_max, Scalar::from_int(7));
}

#[test]
fn bounding_sum_folds_the_hull() {
    let a = Sphere::new(pt(0, 0, 0), Scalar::from_int(1));
    let b = Sphere::new(pt(5, 5, 5), Scalar::from_int(2));
    let boxes: Vec<Aabb> = vec![
        norays::math::bounding_volume::Bounded::<Aabb>::bounding_volume(&a),
        norays::math::bounding_volume::Bounded::<Aabb>::bounding_volume(&b),
    ];
    let hull = boxes.bounding_sum().unwrap();
    assert_eq!(hull.x_min, Scalar::from_int(-1));
    assert_eq!(hull.x_max, Scalar::from_int(7));
    let empty: Vec<Aabb> = Vec::new();
    assert!(empty.bounding_sum().is_none());
}

#[test]
fn vector_algebra_basics() {
    let v = vec3(1, 2, 2);
    assert_eq!(v.magnitude_sq(), Scalar::from_int(9));
    assert_eq!(v.magnitude(), Scalar::from_int(3));
    let n = v.normalized();
    // 1/3, 2/3, 2/3 truncated onto the raw grid
    assert_eq!(n.x.raw, SCALE / 3);
    assert_eq!(n.x.raw, 21845);
    assert_eq!(n.y.raw, 43690);
    assert_eq!(n.z.raw, 43690);
    let c = vec3(1, 0, 0).cross(vec3(0, 1, 0));
    assert_eq!(c, vec3(0, 0, 1));
    assert_eq!(vec3(2, 3, 4).dot(vec3(5, 6, 7)), Scalar::from_int(2 * 5 + 3 * 6 + 4 * 7));
}

#[test]
fn sphere_volume_heuristic_is_exact() {
    let unit = Sphere::new(pt(0, 0, 0), Scalar::from_int(1));
    // (4/3) * r^3 * pi in fixed point: 87381 scaled by pi's raw value
    let expected = 87381i64 * 205887 / 65536;
    assert_eq!(unit.estimated_volume().raw, expected);
}

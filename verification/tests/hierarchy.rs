use norays::math::point::Point;
use norays::math::ray::Ray;
use norays::math::scalar::Scalar;
use norays::math::vector::Vector;
use norays::scenegraph::bvh::Bvh;
use norays::scenegraph::bvh_node::BvhNode;
use norays::scenegraph::sphere::ShadedSphere;
use norays::shading::material::DebugNormalMaterial;
use norays::math::aabb::Aabb;
use norays::math::bounding_volume::Bounded;
use norays::tracing::hit::Hitable;
use norays::tracing::traceable::Traceable;

fn pt(x: i64, y: i64, z: i64) -> Point {
    Point::new(Scalar::from_int(x), Scalar::from_int(y), Scalar::from_int(z))
}

fn vec3(x: i64, y: i64, z: i64) -> Vector {
    Vector::new(Scalar::from_int(x), Scalar::from_int(y), Scalar::from_int(z))
}

fn leaf(x_raw: i64, radius: i64) -> BvhNode<DebugNormalMaterial> {
    BvhNode::Leaf(ShadedSphere::new(
        Point::new(Scalar::from_raw(x_raw), Scalar::zero(), Scalar::zero()),
        Scalar::from_int(radius),
        DebugNormalMaterial {},
    ))
}

#[test]
fn root_bound_contains_every_leaf_bound() {
    let graph = Bvh::from_nodes(vec![
        leaf(-163840, 1), // x = -2.5
        leaf(0, 1),
        leaf(163840, 1), // x = 2.5
    ])
    .unwrap();
    let root: Aabb = Bounded::<Aabb>::bounding_volume(&graph);
    assert_eq!(root.x_min.raw, -163840 - 65536);
    assert_eq!(root.x_max.raw, 163840 + 65536);
    assert_eq!(root.y_min.raw, -65536);
    assert_eq!(root.y_max.raw, 65536);
    assert_eq!(root.z_min.raw, -65536);
    assert_eq!(root.z_max.raw, 65536);
}

#[test]
fn empty_hierarchy_cannot_be_built() {
    let none: Vec<BvhNode<DebugNormalMaterial>> = Vec::new();
    assert!(Bvh::from_nodes(none).is_none());
}

#[test]
fn trace_single_reachable_leaf() {
    // three spheres on the x axis; a ray along x reaches only the first
    let graph = Bvh::from_nodes(vec![
        leaf(-163840, 1), // x = -2.5
        leaf(0, 1),
        leaf(163840, 1), // x = 2.5
    ])
    .unwrap();
    let ray = Ray::new(pt(-10, 0, 0), vec3(1, 0, 0));
    let (dist, hit) = graph.trace(&ray).expect("the ray points along the row");
    // entry of the nearest sphere: (-2.5 - (-10)) - 1 = 6.5
    assert_eq!(dist.raw, 6 * 65536 + 32768);
    assert_eq!(hit.inner.center.x.raw, -163840);
}

#[test]
fn trace_returns_minimum_distance_of_many() {
    let graph = Bvh::from_nodes(vec![
        leaf(9 * 65536, 1), // farther sphere first in the list
        leaf(5 * 65536, 1),
    ])
    .unwrap();
    let ray = Ray::new(pt(0, 0, 0), vec3(1, 0, 0));
    let (dist, hit) = graph.trace(&ray).expect("both spheres lie ahead");
    assert_eq!(dist.raw, 4 * 65536);
    assert_eq!(hit.inner.center.x.raw, 5 * 65536);
}

#[test]
fn trace_misses_when_aimed_away() {
    let graph = Bvh::from_nodes(vec![leaf(0, 1), leaf(163840, 1)]).unwrap();
    let away = Ray::new(pt(0, 0, -10), vec3(0, 1, 0));
    assert!(graph.trace(&away).is_none());
}

#[test]
fn nested_hierarchy_traces_through() {
    let inner = Bvh::from_nodes(vec![leaf(5 * 65536, 1)]).unwrap();
    let graph =
        Bvh::from_nodes(vec![BvhNode::Node(inner), leaf(9 * 65536, 1)]).unwrap();
    let ray = Ray::new(pt(0, 0, 0), vec3(1, 0, 0));
    let (dist, _) = graph.trace(&ray).expect("the nested leaf lies ahead");
    assert_eq!(dist.raw, 4 * 65536);
}

#[test]
fn sphere_direct_hit_reports_distance_minus_radius() {
    let s = ShadedSphere::new(pt(0, 0, 10), Scalar::from_int(1), DebugNormalMaterial {});
    let ray = Ray::new(pt(0, 0, 0), vec3(0, 0, 1));
    let (dist, _) = s.trace(&ray).expect("aimed at the center");
    assert_eq!(dist.raw, 9 * 65536);
}

#[test]
fn hit_details_carry_point_and_normal() {
    let s = ShadedSphere::new(pt(0, 0, 10), Scalar::from_int(1), DebugNormalMaterial {});
    let ray = Ray::new(pt(0, 0, 0), vec3(0, 0, 1));
    let (dist, _) = s.trace(&ray).expect("aimed at the center");
    let hit = s.get_hit(&ray, dist);
    // entry point (0, 0, 9); normal points back along the ray, exactly
    assert_eq!(hit.data.point, pt(0, 0, 9));
    assert_eq!(hit.data.normal, vec3(0, 0, -1));
    assert_eq!(hit.data.incoming_dir, vec3(0, 0, 1));
}

#[test]
fn sphere_missed_past_radius() {
    let s = ShadedSphere::new(pt(0, 0, 10), Scalar::from_int(1), DebugNormalMaterial {});
    // perpendicular offset 2 > radius 1
    let past = Ray::new(pt(0, 2, 0), vec3(0, 0, 1));
    assert!(s.trace(&past).is_none());
    // sphere behind the origin
    let behind = Ray::new(pt(0, 0, 20), vec3(0, 0, 1));
    assert!(s.trace(&behind).is_none());
}

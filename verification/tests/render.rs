use norays::drawing::framebuffer::Framebuffer;
use norays::light::bounce_quota::BounceQuota;
use norays::math::point::Point;
use norays::math::point2d::Point2D;
use norays::math::scalar::Scalar;
use norays::math::vector::Vector;
use norays::scenegraph::bvh::Bvh;
use norays::scenegraph::bvh_node::BvhNode;
use norays::scenegraph::scene::Scene;
use norays::scenegraph::sphere::ShadedSphere;
use norays::shading::material::DebugNormalMaterial;
use norays::tracing::camera::Camera;
use norays::tracing::camera::PlaneCamera;

fn pt(x: i64, y: i64, z: i64) -> Point {
    Point::new(Scalar::from_int(x), Scalar::from_int(y), Scalar::from_int(z))
}

fn three_sphere_row() -> Bvh<DebugNormalMaterial> {
    let mat = DebugNormalMaterial {};
    Bvh::from_nodes(vec![
        BvhNode::Leaf(ShadedSphere::new(
            Point::new(Scalar::from_raw(-163840), Scalar::zero(), Scalar::zero()),
            Scalar::from_int(1),
            mat,
        )),
        BvhNode::Leaf(ShadedSphere::new(pt(0, 0, 0), Scalar::from_int(1), mat)),
        BvhNode::Leaf(ShadedSphere::new(
            Point::new(Scalar::from_raw(163840), Scalar::zero(), Scalar::zero()),
            Scalar::from_int(1),
            mat,
        )),
    ])
    .unwrap()
}

fn overhead_camera() -> PlaneCamera {
    // above the row and angled down at it
    let eye = pt(0, 5, 10);
    let dir = Point::origin().sub_point(eye).normalized();
    PlaneCamera::new(eye, dir, Vector::plus_y(), Scalar::from_int(1))
}

#[test]
fn axis_aligned_camera_shoots_exact_center_ray() {
    let cam = PlaneCamera::new(
        Point::origin(),
        Vector::plus_z(),
        Vector::plus_y(),
        Scalar::from_int(1),
    );
    let ray = cam.screen_ray(&Point2D::new(Scalar::half(), Scalar::half()));
    assert_eq!(ray.origin, Point::origin());
    assert_eq!(ray.direction, Vector::plus_z());
}

#[test]
fn center_ray_hits_the_middle_sphere() {
    let scene = Scene::new(overhead_camera(), three_sphere_row(), BounceQuota::new(30, 5, 5, 5));
    let job = scene.job_for_fragment(&Point2D::new(Scalar::half(), Scalar::half()));
    let light = job.run();
    assert!(light.is_some(), "the middle sphere stands in the view center");
}

#[test]
fn corner_ray_resolves_to_no_light() {
    let scene = Scene::new(overhead_camera(), three_sphere_row(), BounceQuota::new(30, 5, 5, 5));
    let job = scene.job_for_fragment(&Point2D::new(Scalar::zero(), Scalar::zero()));
    assert!(job.run().is_none(), "the corner ray leaves the scene");
}

#[test]
fn quota_exhaustion_is_terminal_not_fatal() {
    let scene = Scene::new(overhead_camera(), three_sphere_row(), BounceQuota::new(0, 0, 0, 0));
    let job = scene.job_for_fragment(&Point2D::new(Scalar::half(), Scalar::half()));
    // the hit still resolves; the material answers with darkness
    let light = job.run().expect("geometry is unchanged by the quota");
    for i in 0..4 {
        assert_eq!(light.v[i].raw, 0);
    }
}

#[test]
fn set_camera_changes_the_view() {
    let mut scene =
        Scene::new(overhead_camera(), three_sphere_row(), BounceQuota::new(30, 5, 5, 5));
    // a camera aimed straight up sees nothing
    let up_cam = PlaneCamera::new(
        pt(0, 0, -20),
        Vector::plus_y(),
        Vector::plus_z(),
        Scalar::from_int(1),
    );
    scene.set_camera(up_cam);
    let job = scene.job_for_fragment(&Point2D::new(Scalar::half(), Scalar::half()));
    assert!(job.run().is_none());
}

fn render_in_order(indices: &[usize]) -> Vec<u32> {
    let scene = Scene::new(overhead_camera(), three_sphere_row(), BounceQuota::new(30, 5, 5, 5));
    let mut fb = Framebuffer::new(5, 5);
    let pts = fb.points();
    for &n in indices {
        let job = scene.job_for_fragment(&pts[n]);
        if let Some(spectrum) = job.run() {
            let v = Vector::new(spectrum.v[0], spectrum.v[1], spectrum.v[2]);
            let color = norays::color::screen_space_color::ScreenSpaceColor::from_vector(&v);
            fb.write_at(&pts[n], color.as_rgb_u32());
        }
    }
    fb.raw_buffer().clone()
}

#[test]
fn delivery_order_does_not_change_the_frame() {
    let forward: Vec<usize> = (0..25).collect();
    let mut backward = forward.clone();
    backward.reverse();
    let mut shuffled: Vec<usize> = (0..25).step_by(3).collect();
    shuffled.extend((0..25).filter(|n| n % 3 != 0));
    let a = render_in_order(&forward);
    let b = render_in_order(&backward);
    let c = render_in_order(&shuffled);
    assert_eq!(a, b);
    assert_eq!(a, c);
    assert!(a.iter().any(|w| *w != 0), "the scene is visible in the frame");
}

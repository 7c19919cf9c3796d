//! Nodes of the bounding-volume hierarchy: either a nested subtree or a
//! leaf primitive, dispatched by tag.

use vstd::prelude::*;

verus! {

use crate::math::aabb::Aabb;
use crate::math::bounding_volume::Bounded;
use crate::math::ray::Ray;
use crate::math::scalar::Scalar;
use crate::scenegraph::bvh::Bvh;
use crate::scenegraph::bvh::bvh_trace_spec;
use crate::scenegraph::bvh::bvh_wf;
use crate::scenegraph::sphere::ShadedSphere;
use crate::scenegraph::sphere::sphere_aabb;
use crate::shading::material::Material;
use crate::tracing::traceable::Traceable;

/// What a leaf of the hierarchy must offer: a bounding box and a trace.
pub trait BvhLeaf<M: Material>: Traceable<M> + Bounded<Aabb> {

}

impl<M: Material, T: Traceable<M> + Bounded<Aabb>> BvhLeaf<M> for T {

}

/// One level of the hierarchy: a nested subtree or a leaf primitive.
pub enum BvhNode<M: Material> {
    Node(Bvh<M>),
    Leaf(ShadedSphere<M>),
}

/// The bounding box a node reports without recursing: a subtree's cached
/// bound, or the leaf sphere's box.
pub open spec fn node_bound<M: Material>(n: BvhNode<M>) -> Aabb {
    match n {
        BvhNode::Node(b) => b.bound,
        BvhNode::Leaf(l) => sphere_aabb(l.inner),
    }
}

/// A node is well-formed when its subtree or leaf is.
pub open spec fn node_wf<M: Material>(n: BvhNode<M>) -> bool
    decreases n,
{
    match n {
        BvhNode::Node(b) => bvh_wf(b),
        BvhNode::Leaf(l) => l.inner.wf(),
    }
}

/// Keep the nearer of two optional hits; on an exact tie the earlier one.
pub open spec fn merge_best<M: Material>(
    acc: Option<(Scalar, ShadedSphere<M>)>,
    nxt: Option<(Scalar, ShadedSphere<M>)>,
) -> Option<(Scalar, ShadedSphere<M>)> {
    match (acc, nxt) {
        (Option::None, c) => c,
        (b, Option::None) => b,
        (Option::Some(b0), Option::Some(c0)) => if b0.0@ <= c0.0@ {
            Some(b0)
        } else {
            Some(c0)
        },
    }
}

/// The exact trace result of one node.
pub open spec fn node_trace_spec<M: Material>(n: BvhNode<M>, ray: Ray) -> Option<
    (Scalar, ShadedSphere<M>),
>
    decreases n,
{
    match n {
        BvhNode::Node(b) => bvh_trace_spec(b, ray),
        BvhNode::Leaf(l) => l.trace_spec(ray),
    }
}

impl<M: Material> Bounded<Aabb> for BvhNode<M> {
    open spec fn bounding_req(self) -> bool {
        node_wf(self)
    }

    open spec fn bounding_volume_spec(self) -> Aabb {
        node_bound(self)
    }

    fn bounding_volume(&self) -> (r: Aabb) {
        match self {
            BvhNode::Node(n) => n.bound,
            BvhNode::Leaf(l) => Bounded::<Aabb>::bounding_volume(l),
        }
    }
}

impl<M: Material> Traceable<M> for BvhNode<M> {
    open spec fn trace_req(self, ray: Ray) -> bool {
        node_wf(self) && ray.wf()
    }

    open spec fn trace_spec(self, ray: Ray) -> Option<(Scalar, ShadedSphere<M>)> {
        node_trace_spec(self, ray)
    }

    fn trace<'a>(&'a self, ray: &Ray) -> (r: Option<(Scalar, &'a ShadedSphere<M>)>)
        decreases *self,
    {
        match self {
            BvhNode::Node(n) => n.trace(ray),
            BvhNode::Leaf(l) => l.trace(ray),
        }
    }
}

} // verus!

//! The bounding-volume hierarchy: a tree of nodes indexed by axis-aligned
//! boxes, supporting a nearest-hit query that prunes subtrees whose bound
//! the ray provably misses.
//!
//! The tree is built once and never mutated; every internal node's bound is
//! the exact hull of its children's bounds, which is what makes pruning
//! complete (see the hierarchy lemmas).

use vstd::prelude::*;

verus! {

use crate::math::aabb::Aabb;
use crate::math::aabb::aabb_test_spec;
use crate::math::bounding_volume::Bounded;
use crate::math::bounding_volume::BoundingVolumeSum;
use crate::math::bounding_volume::fold_aabb;
use crate::math::ray::Ray;
use crate::math::scalar::Scalar;
use crate::scenegraph::bvh_node::BvhNode;
use crate::scenegraph::bvh_node::merge_best;
use crate::scenegraph::bvh_node::node_bound;
use crate::scenegraph::bvh_node::node_trace_spec;
use crate::scenegraph::bvh_node::node_wf;
use crate::scenegraph::sphere::ShadedSphere;
use crate::shading::material::Material;
use crate::tracing::traceable::Traceable;

/// A hierarchy level: a cached bound over an ordered set of children.
pub struct Bvh<M: Material> {
    pub bound: Aabb,
    pub children: Vec<BvhNode<M>>,
}

/// The bounds the children report, in order.
pub open spec fn child_bounds<M: Material>(s: Seq<BvhNode<M>>) -> Seq<Aabb> {
    s.map_values(|n: BvhNode<M>| node_bound(n))
}

/// Well-formedness of a hierarchy level: nonempty, every child well-formed,
/// and the cached bound exactly the hull of the children's bounds, with
/// coordinates in scene range.
pub open spec fn bvh_wf<M: Material>(b: Bvh<M>) -> bool
    decreases b,
{
    &&& b.children@.len() > 0
    &&& b.bound == fold_aabb(child_bounds(b.children@))
    &&& b.bound.bounded(0x8000_0000)
    &&& forall|i: int| 0 <= i < b.children@.len() ==> node_wf(#[trigger] b.children@[i])
}

/// The exact trace result of a subtree: nothing when the bound test prunes
/// it, else the children's results folded nearest-first.
pub open spec fn bvh_trace_spec<M: Material>(b: Bvh<M>, ray: Ray) -> Option<
    (Scalar, ShadedSphere<M>),
>
    decreases b,
{
    if !aabb_test_spec(b.bound, ray) {
        None
    } else {
        seq_trace_spec(b.children@, ray)
    }
}

/// The left-to-right fold of the children's trace results.
pub open spec fn seq_trace_spec<M: Material>(s: Seq<BvhNode<M>>, ray: Ray) -> Option<
    (Scalar, ShadedSphere<M>),
>
    decreases s,
{
    if s.len() == 0 {
        None
    } else {
        merge_best(seq_trace_spec(s.drop_last(), ray), node_trace_spec(s.last(), ray))
    }
}

impl<M: Material> Bvh<M> {
    /// Build one hierarchy level over the given children: their bounds are
    /// folded into the cached bound.  Fails exactly when there are no
    /// children, since no bound could be derived.
    pub fn from_nodes(children: Vec<BvhNode<M>>) -> (r: Option<Bvh<M>>)
        requires
            forall|i: int| 0 <= i < children@.len() ==> node_wf(#[trigger] children@[i]),
        ensures
            r is None <==> children@.len() == 0,
            r matches Some(b) ==> b.children@ == children@ && bvh_wf(b),
    {
        let mut bounds: Vec<Aabb> = Vec::new();
        let mut i: usize = 0;
        while i < children.len()
            invariant
                0 <= i <= children@.len(),
                bounds@ == child_bounds(children@.take(i as int)),
                forall|k: int| 0 <= k < children@.len() ==> node_wf(#[trigger] children@[k]),
                forall|k: int|
                    0 <= k < i ==> (#[trigger] bounds@[k]).bounded(0x8000_0000),
            decreases children@.len() - i,
        {
            let b = children[i].bounding_volume();
            proof {
                lemma_node_bound_in_range(children@[i as int]);
                assert(child_bounds(children@.take(i + 1 as int)) =~= child_bounds(
                    children@.take(i as int),
                ).push(node_bound(children@[i as int])));
            }
            bounds.push(b);
            i = i + 1;
        }
        proof {
            assert(children@.take(children@.len() as int) =~= children@);
        }
        let bound_opt = bounds.bounding_sum();
        match bound_opt {
            None => None,
            Some(bound) => {
                proof {
                    lemma_fold_aabb_bounded(bounds@, 0x8000_0000);
                }
                Some(Bvh { bound, children })
            },
        }
    }
}

/// Every node's reported bound has coordinates in scene range.
pub proof fn lemma_node_bound_in_range<M: Material>(n: BvhNode<M>)
    requires
        node_wf(n),
    ensures
        node_bound(n).bounded(0x8000_0000),
{
}

/// The hull fold of range-bounded boxes stays range-bounded.
pub proof fn lemma_fold_aabb_bounded(s: Seq<Aabb>, m: int)
    requires
        s.len() > 0,
        forall|k: int| 0 <= k < s.len() ==> (#[trigger] s[k]).bounded(m),
    ensures
        fold_aabb(s).bounded(m),
    decreases s.len(),
{
    if s.len() > 1 {
        lemma_fold_aabb_bounded(s.drop_last(), m);
    }
}

/// The trace result a node would report with no pruning at all: every
/// leaf is queried and the nearest-first fold keeps the minimum distance,
/// ties going to the earlier leaf.
pub open spec fn node_trace_unpruned<M: Material>(n: BvhNode<M>, ray: Ray) -> Option<
    (Scalar, ShadedSphere<M>),
>
    decreases n,
{
    match n {
        BvhNode::Node(b) => seq_trace_unpruned(b.children@, ray),
        BvhNode::Leaf(l) => l.trace_spec(ray),
    }
}

/// The unpruned nearest-first fold over a batch of nodes.
pub open spec fn seq_trace_unpruned<M: Material>(s: Seq<BvhNode<M>>, ray: Ray) -> Option<
    (Scalar, ShadedSphere<M>),
>
    decreases s,
{
    if s.len() == 0 {
        None
    } else {
        merge_best(seq_trace_unpruned(s.drop_last(), ray), node_trace_unpruned(s.last(), ray))
    }
}

/// A fold over nodes that each report nothing reports nothing.
proof fn lemma_seq_unpruned_none<M: Material>(s: Seq<BvhNode<M>>, ray: Ray)
    requires
        forall|i: int| 0 <= i < s.len() ==> node_trace_unpruned(#[trigger] s[i], ray) is None,
    ensures
        seq_trace_unpruned(s, ray) is None,
    decreases s,
{
    if s.len() > 0 {
        assert forall|i: int|
            0 <= i < s.drop_last().len() implies node_trace_unpruned(
            #[trigger] s.drop_last()[i],
            ray,
        ) is None by {
            assert(s.drop_last()[i] == s[i]);
        }
        lemma_seq_unpruned_none(s.drop_last(), ray);
        assert(s.last() == s[s.len() - 1]);
    }
}

/// A node whose enclosing box the ray's line misses reports no hit, even
/// without pruning: every leaf sighting would witness the box test.
proof fn lemma_no_hit_when_pruned<M: Material>(n: BvhNode<M>, ray: Ray, bound: Aabb)
    requires
        node_wf(n),
        ray.wf(),
        bound.contains_box(node_bound(n)),
        !aabb_test_spec(bound, ray),
    ensures
        node_trace_unpruned(n, ray) is None,
    decreases n,
{
    match n {
        BvhNode::Leaf(l) => {
            if l.trace_spec(ray) is Some {
                crate::scenegraph::sphere::lemma_sees_implies_box_test(l.inner, ray, bound);
                assert(false);
            }
        },
        BvhNode::Node(b) => {
            lemma_fold_aabb_contains(child_bounds(b.children@));
            assert forall|i: int|
                0 <= i < b.children@.len() implies node_trace_unpruned(
                #[trigger] b.children@[i],
                ray,
            ) is None by {
                assert(child_bounds(b.children@)[i] == node_bound(b.children@[i]));
                assert(b.bound.contains_box(node_bound(b.children@[i])));
                lemma_no_hit_when_pruned(b.children@[i], ray, bound);
            }
            lemma_seq_unpruned_none(b.children@, ray);
        },
    }
}

/// Pruning is complete: a node's pruned trace equals its unpruned trace.
pub proof fn lemma_node_trace_complete<M: Material>(n: BvhNode<M>, ray: Ray)
    requires
        node_wf(n),
        ray.wf(),
    ensures
        node_trace_spec(n, ray) == node_trace_unpruned(n, ray),
    decreases n,
{
    match n {
        BvhNode::Leaf(_) => {
        },
        BvhNode::Node(b) => {
            if aabb_test_spec(b.bound, ray) {
                lemma_seq_trace_complete(b.children@, ray);
            } else {
                lemma_fold_aabb_contains(child_bounds(b.children@));
                assert forall|i: int|
                    0 <= i < b.children@.len() implies node_trace_unpruned(
                    #[trigger] b.children@[i],
                    ray,
                ) is None by {
                    assert(child_bounds(b.children@)[i] == node_bound(b.children@[i]));
                    assert(b.bound.contains_box(node_bound(b.children@[i])));
                    lemma_no_hit_when_pruned(b.children@[i], ray, b.bound);
                }
                lemma_seq_unpruned_none(b.children@, ray);
            }
        },
    }
}

/// As `lemma_node_trace_complete`, over a batch of nodes.
proof fn lemma_seq_trace_complete<M: Material>(s: Seq<BvhNode<M>>, ray: Ray)
    requires
        forall|i: int| 0 <= i < s.len() ==> node_wf(#[trigger] s[i]),
        ray.wf(),
    ensures
        seq_trace_spec(s, ray) == seq_trace_unpruned(s, ray),
    decreases s,
{
    if s.len() > 0 {
        assert forall|i: int| 0 <= i < s.drop_last().len() implies node_wf(
            #[trigger] s.drop_last()[i],
        ) by {
            assert(s.drop_last()[i] == s[i]);
        }
        lemma_seq_trace_complete(s.drop_last(), ray);
        assert(s.last() == s[s.len() - 1]);
        lemma_node_trace_complete(s.last(), ray);
    }
}

/// The nearest-hit query is exact despite pruning: for a ray that reaches
/// any set of leaves, `trace` reports the minimum leaf distance (the first
/// minimal one on exact ties), and no hit exactly when every leaf misses.
pub proof fn lemma_trace_finds_nearest<M: Material>(b: &Bvh<M>, ray: Ray)
    requires
        bvh_wf(*b),
        ray.wf(),
    ensures
        bvh_trace_spec(*b, ray) == seq_trace_unpruned(b.children@, ray),
{
    if aabb_test_spec(b.bound, ray) {
        lemma_seq_trace_complete(b.children@, ray);
    } else {
        lemma_fold_aabb_contains(child_bounds(b.children@));
        assert forall|i: int|
            0 <= i < b.children@.len() implies node_trace_unpruned(
            #[trigger] b.children@[i],
            ray,
        ) is None by {
            assert(child_bounds(b.children@)[i] == node_bound(b.children@[i]));
            assert(b.bound.contains_box(node_bound(b.children@[i])));
            lemma_no_hit_when_pruned(b.children@[i], ray, b.bound);
        }
        lemma_seq_unpruned_none(b.children@, ray);
    }
}

/// The distance a leaf's own trace reports, if any.
pub open spec fn leaf_hit_dist<M: Material>(l: ShadedSphere<M>, ray: Ray) -> Option<Scalar> {
    match l.trace_spec(ray) {
        Some(t) => Some(t.0),
        None => None,
    }
}

/// Whether `l` is a leaf of one of the nodes in `s`.
pub open spec fn leaf_in_seq<M: Material>(l: ShadedSphere<M>, s: Seq<BvhNode<M>>) -> bool {
    exists|i: int| 0 <= i < s.len() && leaf_in_node(l, #[trigger] s[i])
}

/// The unpruned fold reports a leaf's own hit, at the minimum distance any
/// leaf reports.
proof fn lemma_unpruned_min_node<M: Material>(n: BvhNode<M>, ray: Ray)
    ensures
        match node_trace_unpruned(n, ray) {
            Some(t) => leaf_in_node(t.1, n) && t.1.trace_spec(ray) == Some((t.0, t.1)) && forall|
                l: ShadedSphere<M>,
            |
                leaf_in_node(l, n) && (#[trigger] leaf_hit_dist(l, ray)) is Some ==> t.0@
                    <= leaf_hit_dist(l, ray)->Some_0@,
            None => forall|l: ShadedSphere<M>|
                leaf_in_node(l, n) ==> (#[trigger] leaf_hit_dist(l, ray)) is None,
        },
    decreases n,
{
    match n {
        BvhNode::Leaf(_) => {
        },
        BvhNode::Node(b) => {
            lemma_unpruned_min_seq(b.children@, ray);
        },
    }
}

/// As `lemma_unpruned_min_node`, over a batch of nodes.
proof fn lemma_unpruned_min_seq<M: Material>(s: Seq<BvhNode<M>>, ray: Ray)
    ensures
        match seq_trace_unpruned(s, ray) {
            Some(t) => leaf_in_seq(t.1, s) && t.1.trace_spec(ray) == Some((t.0, t.1)) && forall|
                l: ShadedSphere<M>,
            |
                leaf_in_seq(l, s) && (#[trigger] leaf_hit_dist(l, ray)) is Some ==> t.0@
                    <= leaf_hit_dist(l, ray)->Some_0@,
            None => forall|l: ShadedSphere<M>|
                leaf_in_seq(l, s) ==> (#[trigger] leaf_hit_dist(l, ray)) is None,
        },
    decreases s,
{
    if s.len() > 0 {
        lemma_unpruned_min_seq(s.drop_last(), ray);
        lemma_unpruned_min_node(s.last(), ray);
        assert(s.last() == s[s.len() - 1]);
        // membership under the whole batch splits into the front and the last
        assert forall|l: ShadedSphere<M>| leaf_in_seq(l, s.drop_last()) implies leaf_in_seq(
            l,
            s,
        ) by {
            let i = choose|i: int|
                0 <= i < s.drop_last().len() && leaf_in_node(l, #[trigger] s.drop_last()[i]);
            assert(s.drop_last()[i] == s[i]);
            assert(leaf_in_node(l, s[i]));
        }
        match seq_trace_unpruned(s, ray) {
            Some(t) => {
                match seq_trace_unpruned(s.drop_last(), ray) {
                    Some(tp) => {
                        if node_trace_unpruned(s.last(), ray) is Some {
                        }
                    },
                    None => {
                    },
                }
                assert(leaf_in_seq(t.1, s));
                assert forall|l: ShadedSphere<M>|
                    leaf_in_seq(l, s) && (#[trigger] leaf_hit_dist(l, ray)) is Some implies t.0@
                    <= leaf_hit_dist(l, ray)->Some_0@ by {
                    let i = choose|i: int| 0 <= i < s.len() && leaf_in_node(l, #[trigger] s[i]);
                    if i < s.len() - 1 {
                        assert(s.drop_last()[i] == s[i]);
                        assert(leaf_in_seq(l, s.drop_last()));
                    } else {
                        assert(leaf_in_node(l, s.last()));
                    }
                }
            },
            None => {
                assert forall|l: ShadedSphere<M>| leaf_in_seq(l, s) implies (
                #[trigger] leaf_hit_dist(l, ray)) is None by {
                    let i = choose|i: int| 0 <= i < s.len() && leaf_in_node(l, #[trigger] s[i]);
                    if i < s.len() - 1 {
                        assert(s.drop_last()[i] == s[i]);
                        assert(leaf_in_seq(l, s.drop_last()));
                    } else {
                        assert(leaf_in_node(l, s.last()));
                    }
                }
            },
        }
    }
}

/// The nearest-hit query returns one leaf's own hit at the minimum
/// distance over all leaf hits: for a ray reaching exactly one leaf, that
/// leaf's distance; for several, the smallest among them (the first on
/// exact ties); and no result exactly when every leaf reports a miss.
pub proof fn lemma_trace_is_nearest_leaf<M: Material>(b: &Bvh<M>, ray: Ray)
    requires
        bvh_wf(*b),
        ray.wf(),
    ensures
        match bvh_trace_spec(*b, ray) {
            Some(t) => leaf_in_bvh(t.1, *b) && t.1.trace_spec(ray) == Some((t.0, t.1)) && forall|
                l: ShadedSphere<M>,
            |
                leaf_in_bvh(l, *b) && (#[trigger] leaf_hit_dist(l, ray)) is Some ==> t.0@
                    <= leaf_hit_dist(l, ray)->Some_0@,
            None => forall|l: ShadedSphere<M>|
                leaf_in_bvh(l, *b) ==> (#[trigger] leaf_hit_dist(l, ray)) is None,
        },
{
    lemma_trace_finds_nearest(b, ray);
    lemma_unpruned_min_seq(b.children@, ray);
    assert forall|l: ShadedSphere<M>| leaf_in_bvh(l, *b) implies leaf_in_seq(l, b.children@) by {
    }
    assert forall|l: ShadedSphere<M>| leaf_in_seq(l, b.children@) implies leaf_in_bvh(l, *b) by {
    }
}

/// Whether `l` is one of the leaves under node `n`.
pub open spec fn leaf_in_node<M: Material>(l: ShadedSphere<M>, n: BvhNode<M>) -> bool
    decreases n,
{
    match n {
        BvhNode::Leaf(l2) => l2 == l,
        BvhNode::Node(b) => exists|i: int|
            0 <= i < b.children@.len() && leaf_in_node(l, #[trigger] b.children@[i]),
    }
}

/// Whether `l` is one of the hierarchy's leaves.
pub open spec fn leaf_in_bvh<M: Material>(l: ShadedSphere<M>, b: Bvh<M>) -> bool {
    exists|i: int| 0 <= i < b.children@.len() && leaf_in_node(l, #[trigger] b.children@[i])
}

/// The hull fold of a nonempty batch of boxes contains every one of them.
pub proof fn lemma_fold_aabb_contains(s: Seq<Aabb>)
    requires
        s.len() > 0,
    ensures
        forall|i: int| 0 <= i < s.len() ==> fold_aabb(s).contains_box(#[trigger] s[i]),
    decreases s.len(),
{
    if s.len() > 1 {
        lemma_fold_aabb_contains(s.drop_last());
        let f = fold_aabb(s);
        let fp = fold_aabb(s.drop_last());
        assert(f == fp.combine_box(s.last()));
        assert forall|i: int| 0 <= i < s.len() implies f.contains_box(#[trigger] s[i]) by {
            if i < s.len() - 1 {
                assert(s.drop_last()[i] == s[i]);
                assert(fp.contains_box(s[i]));
            } else {
                assert(s[i] == s.last());
            }
        }
    }
}

/// The root's bound contains the reported bound of every leaf under any
/// node: no leaf bound exceeds the enclosing bound on any axis.
pub proof fn lemma_node_bound_contains_leaves<M: Material>(
    l: ShadedSphere<M>,
    n: BvhNode<M>,
)
    requires
        node_wf(n),
        leaf_in_node(l, n),
    ensures
        node_bound(n).contains_box(crate::scenegraph::sphere::sphere_aabb(l.inner)),
    decreases n,
{
    match n {
        BvhNode::Leaf(_) => {
        },
        BvhNode::Node(b) => {
            let i = choose|i: int|
                0 <= i < b.children@.len() && leaf_in_node(l, #[trigger] b.children@[i]);
            lemma_node_bound_contains_leaves(l, b.children@[i]);
            lemma_fold_aabb_contains(child_bounds(b.children@));
            assert(child_bounds(b.children@)[i] == node_bound(b.children@[i]));
            assert(b.bound.contains_box(node_bound(b.children@[i])));
        },
    }
}

/// The hierarchy root's bound, built by `combine`-folding the children's
/// bounds, contains every leaf's bound.
pub proof fn lemma_root_bound_contains_leaves<M: Material>(l: ShadedSphere<M>, b: &Bvh<M>)
    requires
        bvh_wf(*b),
        leaf_in_bvh(l, *b),
    ensures
        b.bound.contains_box(crate::scenegraph::sphere::sphere_aabb(l.inner)),
{
    let i = choose|i: int|
        0 <= i < b.children@.len() && leaf_in_node(l, #[trigger] b.children@[i]);
    lemma_node_bound_contains_leaves(l, b.children@[i]);
    lemma_fold_aabb_contains(child_bounds(b.children@));
    assert(child_bounds(b.children@)[i] == node_bound(b.children@[i]));
}

/// Any hit a subtree reports names a well-formed leaf and a distance in
/// the fixed machine range.
pub proof fn lemma_bvh_trace_result<M: Material>(b: &Bvh<M>, ray: Ray)
    requires
        bvh_wf(*b),
        ray.wf(),
    ensures
        match bvh_trace_spec(*b, ray) {
            Some(t) => t.1.inner.wf() && 0 <= t.0@ <= 0x18_0000_0000,
            None => true,
        },
    decreases *b,
{
    if aabb_test_spec(b.bound, ray) {
        lemma_seq_trace_result(b.children@, ray);
    }
}

/// As `lemma_bvh_trace_result`, for a prefix fold of children.
pub proof fn lemma_seq_trace_result<M: Material>(s: Seq<BvhNode<M>>, ray: Ray)
    requires
        forall|i: int| 0 <= i < s.len() ==> node_wf(#[trigger] s[i]),
        ray.wf(),
    ensures
        match seq_trace_spec(s, ray) {
            Some(t) => t.1.inner.wf() && 0 <= t.0@ <= 0x18_0000_0000,
            None => true,
        },
    decreases s,
{
    if s.len() > 0 {
        lemma_seq_trace_result(s.drop_last(), ray);
        lemma_node_trace_result(s.last(), ray);
    }
}

/// As `lemma_bvh_trace_result`, for one node.
pub proof fn lemma_node_trace_result<M: Material>(n: BvhNode<M>, ray: Ray)
    requires
        node_wf(n),
        ray.wf(),
    ensures
        match node_trace_spec(n, ray) {
            Some(t) => t.1.inner.wf() && 0 <= t.0@ <= 0x18_0000_0000,
            None => true,
        },
    decreases n,
{
    match n {
        BvhNode::Node(b) => lemma_bvh_trace_result(&b, ray),
        BvhNode::Leaf(l) => crate::scenegraph::sphere::lemma_sphere_trace_result(l, ray),
    }
}

impl<M: Material> Bounded<Aabb> for Bvh<M> {
    open spec fn bounding_req(self) -> bool {
        true
    }

    open spec fn bounding_volume_spec(self) -> Aabb {
        self.bound
    }

    fn bounding_volume(&self) -> (r: Aabb) {
        self.bound
    }
}

impl<M: Material> Traceable<M> for Bvh<M> {
    open spec fn trace_req(self, ray: Ray) -> bool {
        bvh_wf(self) && ray.wf()
    }

    open spec fn trace_spec(self, ray: Ray) -> Option<(Scalar, ShadedSphere<M>)> {
        bvh_trace_spec(self, ray)
    }

    fn trace<'a>(&'a self, ray: &Ray) -> (r: Option<(Scalar, &'a ShadedSphere<M>)>)
        decreases *self,
    {
        if !self.bound.test(ray) {
            return None;
        }
        let mut best: Option<(Scalar, &'a ShadedSphere<M>)> = None;
        let mut i: usize = 0;
        while i < self.children.len()
            invariant
                0 <= i <= self.children@.len(),
                bvh_wf(*self),
                self.trace_req(*ray),
                match best {
                    None => seq_trace_spec(self.children@.take(i as int), *ray) is None,
                    Some(t) => seq_trace_spec(self.children@.take(i as int), *ray) == Some(
                        (t.0, *t.1),
                    ),
                },
            decreases self.children@.len() - i,
        {
            let child = &self.children[i];
            proof {
                assert(decreases_to!(*self => self.children));
                assert(decreases_to!(self.children => self.children@));
                assert(decreases_to!(self.children@ => self.children@[i as int]));
            }
            let child_res = child.trace(ray);
            proof {
                assert(self.children@.take(i + 1 as int).drop_last() =~= self.children@.take(
                    i as int,
                ));
                assert(self.children@.take(i + 1 as int).last() == self.children@[i as int]);
            }
            best = match (best, child_res) {
                (None, c) => c,
                (b, None) => b,
                (Some(b0), Some(c0)) => if b0.0.raw <= c0.0.raw {
                    Some(b0)
                } else {
                    Some(c0)
                },
            };
            i = i + 1;
        }
        proof {
            assert(self.children@.take(self.children@.len() as int) =~= self.children@);
        }
        best
    }
}

} // verus!

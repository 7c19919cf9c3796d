//! The bounding-volume capability set.
//!
//! A `BoundingVolume` can absorb another volume (`combine`), estimate its
//! own size, and conservatively test a ray.  Each operation's result is
//! pinned by a spec function of the implementation, and every implementation
//! must prove `combine` exactly commutative.

use vstd::prelude::*;

verus! {

use crate::math::aabb::Aabb;
use crate::math::ray::Ray;
use crate::math::scalar::Scalar;

/// An abstract volume: combinable, sizeable, and testable against rays.
pub trait BoundingVolume: Sized + Clone + Copy {
    /// The bounds under which the volume's arithmetic is exact.
    spec fn wf(self) -> bool;

    /// The exact result of `combine`.
    spec fn combine_spec(self, rhs: Self) -> Self;

    /// The exact result of `test`.
    spec fn test_spec(self, ray: Ray) -> bool;

    /// The exact result of `estimated_volume`.
    spec fn volume_spec(self) -> int;

    /// A volume enclosing both inputs, never smaller than either.
    fn combine(&self, rhs: &Self) -> (r: Self)
        requires
            self.wf(),
            rhs.wf(),
        ensures
            r == self.combine_spec(*rhs),
    ;

    /// A monotonic size heuristic for cost estimation; not used for
    /// correctness.
    fn estimated_volume(&self) -> (r: Scalar)
        requires
            self.wf(),
        ensures
            r@ == self.volume_spec(),
    ;

    /// Whether the ray may hit anything inside; conservative by intent, and
    /// here exact for the line through the ray.
    fn test(&self, against: &Ray) -> (r: bool)
        requires
            self.wf(),
            against.wf(),
        ensures
            r == self.test_spec(*against),
    ;

    /// `combine` is commutative — exactly, not merely up to tolerance.
    proof fn lemma_combine_commutes(a: Self, b: Self)
        requires
            a.wf(),
            b.wf(),
        ensures
            a.combine_spec(b) == b.combine_spec(a),
    ;
}

/// A shape that can report an enclosing volume of type `B`.
pub trait Bounded<B: BoundingVolume> {
    /// When the enclosing volume's arithmetic is exact.
    spec fn bounding_req(self) -> bool;

    /// The exact volume `bounding_volume` reports.
    spec fn bounding_volume_spec(self) -> B;

    /// An enclosing volume for this shape.
    fn bounding_volume(&self) -> (r: B)
        requires
            self.bounding_req(),
        ensures
            r == self.bounding_volume_spec(),
    ;
}

/// The left fold of a nonempty sequence of boxes under the exact hull.
pub open spec fn fold_aabb(s: Seq<Aabb>) -> Aabb
    recommends
        s.len() > 0,
    decreases s.len(),
{
    if s.len() <= 1 {
        s[0]
    } else {
        fold_aabb(s.drop_last()).combine_box(s.last())
    }
}

/// A collection of volumes whose combined hull can be taken in one sweep.
pub trait BoundingVolumeSum<B: BoundingVolume> {
    /// The exact result of `bounding_sum`.
    spec fn bounding_sum_spec(self) -> Option<B>;

    /// The hull of all contained volumes, or `None` for an empty collection.
    fn bounding_sum(&self) -> (r: Option<B>)
        ensures
            r == self.bounding_sum_spec(),
    ;
}

impl BoundingVolumeSum<Aabb> for Vec<Aabb> {
    open spec fn bounding_sum_spec(self) -> Option<Aabb> {
        if self@.len() == 0 {
            None
        } else {
            Some(fold_aabb(self@))
        }
    }

    fn bounding_sum(&self) -> (r: Option<Aabb>) {
        if self.len() == 0 {
            return None;
        }
        let mut acc = self[0];
        let mut n: usize = 1;
        while n < self.len()
            invariant
                1 <= n <= self@.len(),
                acc == fold_aabb(self@.take(n as int)),
            decreases self@.len() - n,
        {
            proof {
                assert(self@.take(n + 1 as int).drop_last() =~= self@.take(n as int));
                assert(self@.take(n + 1 as int).last() == self@[n as int]);
            }
            acc = acc.combine(&self[n]);
            n = n + 1;
        }
        proof {
            assert(self@.take(self@.len() as int) =~= self@);
        }
        Some(acc)
    }
}

} // verus!

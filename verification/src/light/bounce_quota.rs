//! The bounce quota: four independent per-category budgets whose strictly
//! decreasing sum guarantees that every recursive shading chain terminates.

use vstd::prelude::*;

verus! {

/// The four categories of light bounce a material may spend budget on.
#[derive(Clone, Copy, PartialEq, Eq, Structural, Debug)]
pub enum BounceType {
    Diffuse,
    Glossy,
    Transmission,
    Volume,
}

/// An immutable bounce budget; spending produces a new value.
#[derive(Clone, Copy, PartialEq, Eq, Structural, Debug)]
pub struct BounceQuota {
    diffuse: u16,
    glossy: u16,
    transmission: u16,
    volume: u16,
}

impl BounceQuota {
    /// The remaining budget of one category.
    pub closed spec fn count(self, bounce: BounceType) -> int {
        match bounce {
            BounceType::Diffuse => self.diffuse as int,
            BounceType::Glossy => self.glossy as int,
            BounceType::Transmission => self.transmission as int,
            BounceType::Volume => self.volume as int,
        }
    }

    /// The quota with one category's counter replaced by `c`.
    pub closed spec fn with_count(self, bounce: BounceType, c: int) -> BounceQuota {
        match bounce {
            BounceType::Diffuse => BounceQuota { diffuse: c as u16, ..self },
            BounceType::Glossy => BounceQuota { glossy: c as u16, ..self },
            BounceType::Transmission => BounceQuota { transmission: c as u16, ..self },
            BounceType::Volume => BounceQuota { volume: c as u16, ..self },
        }
    }

    /// The exact result of `attempt`: a decremented copy, or nothing once
    /// the category is exhausted.
    pub closed spec fn attempt_spec(self, bounce: BounceType) -> Option<BounceQuota> {
        if self.count(bounce) > 0 {
            Some(self.with_count(bounce, self.count(bounce) - 1))
        } else {
            None
        }
    }

    /// The result of attempting one category `n` times in sequence.
    pub closed spec fn attempt_n(self, bounce: BounceType, n: nat) -> Option<BounceQuota>
        decreases n,
    {
        if n == 0 {
            Some(self)
        } else {
            match self.attempt_n(bounce, (n - 1) as nat) {
                Some(q) => q.attempt_spec(bounce),
                None => None,
            }
        }
    }

    /// A fresh quota with the given per-category budgets.
    pub fn new(diffuse: u16, glossy: u16, transmission: u16, volume: u16) -> (r: BounceQuota)
        ensures
            r.count(BounceType::Diffuse) == diffuse,
            r.count(BounceType::Glossy) == glossy,
            r.count(BounceType::Transmission) == transmission,
            r.count(BounceType::Volume) == volume,
    {
        BounceQuota { diffuse, glossy, transmission, volume }
    }

    /// Spend one unit of `bounce`: a copy with that single counter one
    /// lower, or `None` exactly when the counter is already zero.
    pub fn attempt(&self, bounce: BounceType) -> (r: Option<BounceQuota>)
        ensures
            r == self.attempt_spec(bounce),
            r is Some <==> self.count(bounce) > 0,
            r matches Some(q) ==> q.count(bounce) == self.count(bounce) - 1,
            r matches Some(q) ==> forall|o: BounceType|
                o != bounce ==> #[trigger] q.count(o) == self.count(o),
    {
        let r = match bounce {
            BounceType::Diffuse => {
                if self.diffuse > 0 {
                    Some(BounceQuota { diffuse: self.diffuse - 1, ..*self })
                } else {
                    None
                }
            },
            BounceType::Glossy => {
                if self.glossy > 0 {
                    Some(BounceQuota { glossy: self.glossy - 1, ..*self })
                } else {
                    None
                }
            },
            BounceType::Transmission => {
                if self.transmission > 0 {
                    Some(BounceQuota { transmission: self.transmission - 1, ..*self })
                } else {
                    None
                }
            },
            BounceType::Volume => {
                if self.volume > 0 {
                    Some(BounceQuota { volume: self.volume - 1, ..*self })
                } else {
                    None
                }
            },
        };
        proof {
            assert forall|o: BounceType| o != bounce && r is Some implies #[trigger] r->Some_0.count(
                o,
            ) == self.count(o) by {
            }
        }
        r
    }
}

/// A category with initial budget `c` can be spent exactly `c` times: every
/// attempt up to the `c`-th succeeds, each leaving the other three counters
/// untouched and the spent one lower by the number of attempts, and the
/// attempt after that fails.
pub proof fn lemma_quota_exhaustion(q: BounceQuota, bounce: BounceType, n: nat)
    ensures
        n <= q.count(bounce) ==> q.attempt_n(bounce, n) == Some(
            q.with_count(bounce, q.count(bounce) - n),
        ),
        n > q.count(bounce) ==> q.attempt_n(bounce, n) is None,
    decreases n,
{
    if n == 0 {
        assert(q.with_count(bounce, q.count(bounce)) == q);
    } else {
        lemma_quota_exhaustion(q, bounce, (n - 1) as nat);
    }
}

} // verus!

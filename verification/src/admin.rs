//! The set of authorized moderator identities.
//!
//! Built once at startup from the main channel's administrator list and
//! never refreshed.  When the startup fetch fails, the caller hands in
//! an empty list and the registry authorizes no one: authorization fails
//! closed.

use vstd::prelude::*;

verus! {

/// An immutable snapshot of the authorized moderator identities.
pub struct AdminRegistry {
    pub ids: Vec<i64>,
}

impl AdminRegistry {
    /// The identities this registry authorizes.
    pub open spec fn view(&self) -> Set<i64> {
        Set::new(|id: i64| self.ids@.contains(id))
    }

    /// Wraps the point-in-time administrator list.  An empty list — the
    /// fail-closed outcome of a failed fetch — authorizes no one.
    pub fn new(ids: Vec<i64>) -> (r: AdminRegistry)
        ensures
            r@ == Set::new(|id: i64| ids@.contains(id)),
            forall|id: i64| r@.contains(id) == ids@.contains(id),
    {
        let r = AdminRegistry { ids };
        r
    }

    /// Whether the sender is an authorized moderator.
    pub fn is_admin(&self, id: i64) -> (r: bool)
        ensures
            r == self@.contains(id),
    {
        let mut i: usize = 0;
        while i < self.ids.len()
            invariant
                0 <= i <= self.ids@.len(),
                forall|j: int| 0 <= j < i ==> self.ids@[j] != id,
            decreases self.ids@.len() - i,
        {
            if self.ids[i] == id {
                return true;
            }
            i = i + 1;
        }
        proof {
            assert(!self.ids@.contains(id));
        }
        false
    }
}

} // verus!

//! Bitmask-based collision group filters.

use vstd::prelude::*;

verus! {

/// A collision group filter: the groups an object is a member of, the groups
/// it is allowed to interact with, and the groups it refuses to interact
/// with. Each bit of the masks stands for one group.
#[derive(Clone, Copy, PartialEq, Eq, Structural, Debug)]
pub struct CollisionGroups {
    pub membership: u32,
    pub whitelist: u32,
    pub blacklist: u32,
}

impl CollisionGroups {
    /// Two filters may interact when each whitelists at least one group the
    /// other is a member of, and neither blacklists any group the other is a
    /// member of.
    pub open spec fn can_interact_spec(self, other: CollisionGroups) -> bool {
        &&& self.whitelist & other.membership != 0
        &&& other.whitelist & self.membership != 0
        &&& self.blacklist & other.membership == 0
        &&& other.blacklist & self.membership == 0
    }

    /// Builds a filter from its three masks.
    pub fn new(membership: u32, whitelist: u32, blacklist: u32) -> (g: CollisionGroups)
        ensures
            g.membership == membership,
            g.whitelist == whitelist,
            g.blacklist == blacklist,
    {
        CollisionGroups { membership, whitelist, blacklist }
    }

    /// Tests whether objects carrying the two filters are allowed to
    /// interact.
    pub fn can_interact_with_groups(&self, other: &CollisionGroups) -> (r: bool)
        ensures
            r == self.can_interact_spec(*other),
    {
        self.whitelist & other.membership != 0 && other.whitelist & self.membership != 0
            && self.blacklist & other.membership == 0 && other.blacklist & self.membership == 0
    }
}

/// Law: the interaction relation is symmetric; it does not matter which of
/// the two filters the query was phrased from.
pub proof fn lemma_can_interact_symmetric(a: CollisionGroups, b: CollisionGroups)
    ensures
        a.can_interact_spec(b) == b.can_interact_spec(a),
{
}

} // verus!

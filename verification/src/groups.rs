//! Collision-group filters.
//!
//! A collider belongs to some groups (`memberships`) and names the groups it
//! is willing to touch (`filter`), each as one bit of a 32-bit mask.  Two
//! colliders interact exactly when each side's memberships intersect the
//! other side's filter.

use vstd::prelude::*;

verus! {

/// A set of up to 32 collision groups, one bit each.
#[derive(Clone, Copy, PartialEq, Eq, Hash, Structural, Debug)]
pub struct Group(pub u32);

impl Group {
    /// The raw bit mask.
    pub fn bits(self) -> (r: u32)
        ensures
            r == self.0,
    {
        self.0
    }

    /// The group set with exactly the given bits.
    pub fn from_bits(bits: u32) -> (r: Group)
        ensures
            r.0 == bits,
    {
        Group(bits)
    }

    /// Membership of the single group `i`.
    pub fn nth(i: u32) -> (r: Group)
        requires
            i < 32,
        ensures
            r.0 == 1u32 << i,
    {
        Group(1u32 << i)
    }

    /// Every group.
    pub fn all() -> (r: Group)
        ensures
            r.0 == 0xFFFF_FFFFu32,
    {
        Group(0xFFFF_FFFF)
    }

    /// No group.
    pub fn none() -> (r: Group)
        ensures
            r.0 == 0u32,
    {
        Group(0)
    }

    /// Whether the two sets share a group.
    pub fn intersects(self, other: Group) -> (r: bool)
        ensures
            r == ((self.0 & other.0) != 0),
    {
        (self.0 & other.0) != 0
    }
}

/// Pairwise group filter: memberships on one side must intersect the
/// filter on the other, and vice versa.
#[derive(Clone, Copy, PartialEq, Eq, Hash, Structural, Debug)]
pub struct InteractionGroups {
    pub memberships: Group,
    pub filter: Group,
}

/// The interaction test between two filters, as a predicate.
pub open spec fn groups_allow(a: InteractionGroups, b: InteractionGroups) -> bool {
    (a.memberships.0 & b.filter.0) != 0 && (b.memberships.0 & a.filter.0) != 0
}

/// Whether two colliders may interact never depends on the order in which
/// their filters are compared.
pub proof fn lemma_groups_allow_symmetric(a: InteractionGroups, b: InteractionGroups)
    ensures
        groups_allow(a, b) == groups_allow(b, a),
{
}

impl InteractionGroups {
    /// Initializes with the given interaction groups and interaction mask.
    pub fn new(memberships: Group, filter: Group) -> (r: Self)
        ensures
            r.memberships == memberships,
            r.filter == filter,
    {
        Self { memberships, filter }
    }

    /// Allow interaction with everything.
    pub fn all() -> (r: Self)
        ensures
            r.memberships.0 == 0xFFFF_FFFFu32,
            r.filter.0 == 0xFFFF_FFFFu32,
    {
        Self::new(Group::all(), Group::all())
    }

    /// Prevent all interactions.
    pub fn none() -> (r: Self)
        ensures
            r.memberships.0 == 0u32,
            r.filter.0 == 0u32,
    {
        Self::new(Group::none(), Group::none())
    }

    /// Sets the group this filter is part of.
    pub fn with_memberships(self, memberships: Group) -> (r: Self)
        ensures
            r.memberships == memberships,
            r.filter == self.filter,
    {
        Self { memberships, filter: self.filter }
    }

    /// Sets the interaction mask of this filter.
    pub fn with_filter(self, filter: Group) -> (r: Self)
        ensures
            r.memberships == self.memberships,
            r.filter == filter,
    {
        Self { memberships: self.memberships, filter }
    }

    /// Check if interactions should be allowed based on the interaction
    /// memberships and filter: allowed iff the memberships of `self`
    /// intersect the filter of `rhs`, and vice versa.
    pub fn test(self, rhs: Self) -> (r: bool)
        ensures
            r == groups_allow(self, rhs),
    {
        self.memberships.intersects(rhs.filter) && rhs.memberships.intersects(self.filter)
    }
}

impl Default for InteractionGroups {
    /// The default filter interacts with everything.
    fn default() -> (r: Self)
        ensures
            r.memberships.0 == 0xFFFF_FFFFu32,
            r.filter.0 == 0xFFFF_FFFFu32,
    {
        Self::all()
    }
}

} // verus!

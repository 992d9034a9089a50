//! Fixed distance-and-angle joints.

use crate::arena::Index;
use crate::body::RigidBodyHandle;
use crate::fx::{in_lim, FX_LIM};
use crate::vec2::{in_lim_v, Vec2};
use vstd::prelude::*;

verus! {

/// A handle to a joint in the engine's joint table.
#[derive(Clone, Copy, PartialEq, Eq, Hash, Structural, Debug)]
pub struct JointHandle(pub Index);

/// A stiff joint holding two bodies at a fixed anchor distance, with a
/// captured relative angle the solver nudges the bodies back toward.
#[derive(Clone, Copy, PartialEq, Eq, Structural, Debug)]
pub struct FixedJoint {
    pub rigid_body_a: RigidBodyHandle,
    pub rigid_body_b: RigidBodyHandle,
    /// Local anchor point in body A's coordinate system.
    pub anchor_a: Vec2,
    /// Local anchor point in body B's coordinate system.
    pub anchor_b: Vec2,
    /// Distance between anchor points when the joint was created, or as
    /// supplied explicitly.
    pub distance: i64,
    /// Relative rotation of the two bodies when the joint was created.
    pub target_angle: i64,
}

/// Joint scalars are within the world bound and the rest distance is
/// nonnegative.
pub open spec fn joint_wf(j: FixedJoint) -> bool {
    &&& in_lim_v(j.anchor_a@)
    &&& in_lim_v(j.anchor_b@)
    &&& 0 <= j.distance <= FX_LIM
    &&& in_lim(j.target_angle as int)
}

} // verus!

//! Plain-data snapshots for external drawing.
//!
//! The snapshot is the engine's entire contract with a rendering layer:
//! body transforms, joint and spring endpoints, and collider poses with
//! radii, copied out as plain values.  The engine never calls into
//! rendering code.

use crate::body::Transform2;
use crate::physics::Physics;
use crate::vec2::Vec2;
use vstd::prelude::*;

verus! {

broadcast use crate::arena::lemma_occ_range;

/// One body's pose.
#[derive(Clone, Copy, PartialEq, Eq, Structural, Debug)]
pub struct DebugRigidBody {
    pub transform: Transform2,
}

/// A joint's two endpoint body positions.
#[derive(Clone, Copy, PartialEq, Eq, Structural, Debug)]
pub struct DebugJoint {
    pub body_a: Vec2,
    pub body_b: Vec2,
}

/// A collider's pose and radius.
#[derive(Clone, Copy, PartialEq, Eq, Structural, Debug)]
pub struct DebugCollider {
    pub transform: Transform2,
    pub radius: i64,
}

/// A spring's two endpoint positions.
#[derive(Clone, Copy, PartialEq, Eq, Structural, Debug)]
pub struct DebugSpring {
    pub body_a: Vec2,
    pub body_b: Vec2,
}

/// Everything a drawing layer needs, as plain copies.
pub struct DebugData {
    pub bodies: Vec<DebugRigidBody>,
    pub joints: Vec<DebugJoint>,
    pub colliders: Vec<DebugCollider>,
    pub springs: Vec<DebugSpring>,
}

/// The body snapshots over the first `n` slots: one entry per live
/// body, in slot order, holding its pose.
pub open spec fn body_snapshots(set: crate::body::RigidBodySet, n: int) -> Seq<DebugRigidBody>
    decreases n,
{
    if n <= 0 {
        Seq::empty()
    } else {
        let rest = body_snapshots(set, n - 1);
        if set.arena.occ(n - 1) {
            rest.push(
                DebugRigidBody {
                    transform: Transform2 {
                        translation: set.arena.val_at(n - 1).position,
                        rotation: set.arena.val_at(n - 1).rotation,
                    },
                },
            )
        } else {
            rest
        }
    }
}

/// The joint snapshots over the first `n` joint slots: one entry per
/// live joint whose bodies are both live, holding the endpoint body
/// positions.
pub open spec fn joint_snapshots(
    joints: crate::arena::Arena<crate::joints::FixedJoint>,
    set: crate::body::RigidBodySet,
    n: int,
) -> Seq<DebugJoint>
    decreases n,
{
    if n <= 0 {
        Seq::empty()
    } else {
        let rest = joint_snapshots(joints, set, n - 1);
        if joints.occ(n - 1) {
            let jt = joints.val_at(n - 1);
            if set.arena.valid(jt.rigid_body_a.0) && set.arena.valid(jt.rigid_body_b.0) {
                rest.push(
                    DebugJoint {
                        body_a: set.arena.at(jt.rigid_body_a.0).position,
                        body_b: set.arena.at(jt.rigid_body_b.0).position,
                    },
                )
            } else {
                rest
            }
        } else {
            rest
        }
    }
}

/// The collider snapshots over the first `n` collider slots: one entry
/// per live collider, in slot order, holding its cached pose and
/// radius.
pub open spec fn collider_snapshots(cols: crate::collider::ColliderSet, n: int) -> Seq<
    DebugCollider,
>
    decreases n,
{
    if n <= 0 {
        Seq::empty()
    } else {
        let rest = collider_snapshots(cols, n - 1);
        if cols.arena.occ(n - 1) {
            rest.push(
                DebugCollider {
                    transform: cols.arena.val_at(n - 1).absolute_transform,
                    radius: cols.arena.val_at(n - 1).radius,
                },
            )
        } else {
            rest
        }
    }
}

/// The spring snapshots over the first `n` spring slots: one entry per
/// live spring whose endpoint bodies are live, holding the endpoint
/// positions (a fixed world point stands for itself).
pub open spec fn spring_snapshots(
    springs: crate::arena::Arena<crate::springs::Spring>,
    set: crate::body::RigidBodySet,
    n: int,
) -> Seq<DebugSpring>
    decreases n,
{
    if n <= 0 {
        Seq::empty()
    } else {
        let rest = spring_snapshots(springs, set, n - 1);
        if springs.occ(n - 1) {
            let sp = springs.val_at(n - 1);
            if set.arena.valid(sp.rigid_body_a.0) {
                match sp.connection_b {
                    crate::springs::SpringConnection::RigidBody(hb) => if set.arena.valid(hb.0) {
                        rest.push(
                            DebugSpring {
                                body_a: set.arena.at(sp.rigid_body_a.0).position,
                                body_b: set.arena.at(hb.0).position,
                            },
                        )
                    } else {
                        rest
                    },
                    crate::springs::SpringConnection::Location(loc) => rest.push(
                        DebugSpring {
                            body_a: set.arena.at(sp.rigid_body_a.0).position,
                            body_b: loc,
                        },
                    ),
                }
            } else {
                rest
            }
        } else {
            rest
        }
    }
}

/// Copy out the poses of all live bodies, the endpoints of all joints
/// and springs whose bodies are live, and all collider poses.  Each
/// body entry holds the pose of the live body in the matching slot.
pub fn make_debug_data(physics: &Physics) -> (r: DebugData)
    requires
        physics.wf(),
    ensures
        r.bodies@ == body_snapshots(physics.rbd_set, physics.rbd_set.arena.slot_count()),
        r.joints@ == joint_snapshots(
            physics.joints,
            physics.rbd_set,
            physics.joints.slot_count(),
        ),
        r.colliders@ == collider_snapshots(
            physics.col_set,
            physics.col_set.arena.slot_count(),
        ),
        r.springs@ == spring_snapshots(
            physics.springs,
            physics.rbd_set,
            physics.springs.slot_count(),
        ),
{
    let mut bodies: Vec<DebugRigidBody> = Vec::new();
    let n = physics.rbd_set.arena.num_slots();
    let mut i: usize = 0;
    while i < n
        invariant
            physics.wf(),
            n == physics.rbd_set.arena.slot_count(),
            0 <= i <= n,
            bodies@ == body_snapshots(physics.rbd_set, i as int),
        decreases n - i,
    {
        match physics.rbd_set.arena.get_slot(i) {
            Some(b) => {
                let t = b.transform();
                bodies.push(DebugRigidBody { transform: t });
            },
            None => {},
        }
        i = i + 1;
    }
    let mut joints: Vec<DebugJoint> = Vec::new();
    let jn = physics.joints.num_slots();
    let mut j: usize = 0;
    while j < jn
        invariant
            physics.wf(),
            jn == physics.joints.slot_count(),
            0 <= j <= jn,
            joints@ == joint_snapshots(physics.joints, physics.rbd_set, j as int),
        decreases jn - j,
    {
        match physics.joints.get_slot(j) {
            Some(jt) => {
                let pa = match physics.rbd_set.get(jt.rigid_body_a) {
                    Some(b) => Some(b.position),
                    None => None,
                };
                let pb = match physics.rbd_set.get(jt.rigid_body_b) {
                    Some(b) => Some(b.position),
                    None => None,
                };
                match (pa, pb) {
                    (Some(a), Some(b)) => {
                        joints.push(DebugJoint { body_a: a, body_b: b });
                    },
                    _ => {},
                }
            },
            None => {},
        }
        j = j + 1;
    }
    let mut colliders: Vec<DebugCollider> = Vec::new();
    let cn = physics.col_set.arena.num_slots();
    let mut c: usize = 0;
    while c < cn
        invariant
            physics.wf(),
            cn == physics.col_set.arena.slot_count(),
            0 <= c <= cn,
            colliders@ == collider_snapshots(physics.col_set, c as int),
        decreases cn - c,
    {
        match physics.col_set.arena.get_slot(c) {
            Some(col) => {
                colliders.push(
                    DebugCollider { transform: col.absolute_transform, radius: col.radius },
                );
            },
            None => {},
        }
        c = c + 1;
    }
    let mut springs: Vec<DebugSpring> = Vec::new();
    let sn = physics.springs.num_slots();
    let mut s: usize = 0;
    while s < sn
        invariant
            physics.wf(),
            sn == physics.springs.slot_count(),
            0 <= s <= sn,
            springs@ == spring_snapshots(physics.springs, physics.rbd_set, s as int),
        decreases sn - s,
    {
        match physics.springs.get_slot(s) {
            Some(sp) => {
                let pa = match physics.rbd_set.get(sp.rigid_body_a) {
                    Some(b) => Some(b.position),
                    None => None,
                };
                let pb = match sp.connection_b {
                    crate::springs::SpringConnection::RigidBody(hb) => match physics.rbd_set.get(
                        hb,
                    ) {
                        Some(b) => Some(b.position),
                        None => None,
                    },
                    crate::springs::SpringConnection::Location(loc) => Some(loc),
                };
                match (pa, pb) {
                    (Some(a), Some(b)) => {
                        springs.push(DebugSpring { body_a: a, body_b: b });
                    },
                    _ => {},
                }
            },
            None => {},
        }
        s = s + 1;
    }
    DebugData { bodies, joints, colliders, springs }
}

impl Physics {
    /// The plain-data snapshot for drawing.
    pub fn debug_data(&self) -> (r: DebugData)
        requires
            self.wf(),
        ensures
            r.bodies@ == body_snapshots(self.rbd_set, self.rbd_set.arena.slot_count()),
            r.joints@ == joint_snapshots(self.joints, self.rbd_set, self.joints.slot_count()),
            r.colliders@ == collider_snapshots(self.col_set, self.col_set.arena.slot_count()),
            r.springs@ == spring_snapshots(
                self.springs,
                self.rbd_set,
                self.springs.slot_count(),
            ),
    {
        make_debug_data(self)
    }
}

} // verus!

//! The physics engine: one fixed timestep runs gravity, springs,
//! collision resolution, joint solving, Verlet integration and boundary
//! constraints, in that order — the sequence is load-bearing for
//! stability and is kept exactly.

use crate::arena::{Arena, Index};
use crate::body::{
    body_wf, RigidBody, RigidBodyHandle, RigidBodySet, RigidBodyType,
};
use crate::collider::{
    collider_wf, Collider, ColliderHandle, ColliderSet,
};
use crate::events::CollisionEvent;
use crate::fx::{clamp_s, fx_div, fx_div_s, fx_mul_c, fx_mul_cs, in_lim, tdiv, tdiv64, FX_LIM, FX_ONE};
use crate::joints::{joint_wf, FixedJoint, JointHandle};
use crate::spatial::SpatialHash;
use crate::springs::{spring_wf, Spring, SpringHandle};
use crate::vec2::{
    in_lim_v, lemma_mul_mag, lemma_unit_dir_bounded, v2_add, v2_clamp, v2_fxdiv, v2_len_wide,
    v2_sub, v_add, v_clamp, v_fxdiv, v_len, v_len_sq, v_sub, V2i, Vec2,
};
use vstd::prelude::*;

verus! {

broadcast use crate::arena::lemma_occ_range, crate::arena::lemma_slot_count_bound, crate::arena::lemma_gen_range;

/// A circular boundary: every dynamic body is kept within `radius` of
/// `position`.
pub struct Constraint {
    pub position: Vec2,
    pub radius: i64,
}

/// Constraint scalars are within the world bound.
pub open spec fn constraint_wf(c: Constraint) -> bool {
    in_lim_v(c.position@) && 0 <= c.radius <= FX_LIM
}

/// The fixed timestep drained by `fixed_step`, about a sixtieth of a
/// second in ticks.
pub const FIXED_DELTA: i64 = 1092;

/// How many whole fixed steps `fixed_step` drains from a (nonnegative)
/// accumulator: all of them, capped at three.
pub open spec fn drained_steps_s(acc: int) -> int {
    if tdiv(acc, FIXED_DELTA as int) >= 3 {
        3
    } else {
        tdiv(acc, FIXED_DELTA as int)
    }
}

/// The clock after `k` fixed steps, each advance saturated at the
/// world bound.
pub open spec fn time_after_s(t: int, k: int) -> int
    decreases k,
{
    if k <= 0 {
        t
    } else {
        clamp_s(time_after_s(t, k - 1) + FIXED_DELTA)
    }
}

/// The packed spatial-hash id of the body in slot `i` of a body store.
pub open spec fn slot_bits(s: RigidBodySet, i: int) -> int {
    s.arena.gen_at(i) * 0x1_0000_0000 + i
}

/// The whole simulation: stores, broad phase, constraint lists, event
/// queue and the fixed-step accumulator.
pub struct Physics {
    pub gravity: Vec2,
    pub substeps: u32,
    pub joint_iterations: u32,
    pub rbd_set: RigidBodySet,
    pub col_set: ColliderSet,
    pub joints: Arena<FixedJoint>,
    pub springs: Arena<Spring>,
    pub constraints: Vec<Constraint>,
    pub spatial_hash: SpatialHash,
    pub use_spatial_hash: bool,
    /// Contact notifications, drained by the caller between steps.
    pub collision_events: Vec<CollisionEvent>,
    pub collisions_enabled: bool,
    /// Unconsumed frame time, in ticks.
    pub accumulator: i64,
    /// Total simulated time, in ticks.
    pub time: i64,
}

impl Physics {
    /// The standing invariant: every store is internally consistent,
    /// every stored scalar is in bounds, and the spatial index holds a
    /// point for exactly the live bodies, keyed by their handle bits.
    pub open spec fn wf(self) -> bool {
        &&& in_lim_v(self.gravity@)
        &&& self.substeps >= 1
        &&& self.rbd_set.wf()
        &&& self.col_set.wf()
        &&& self.joints.wf()
        &&& forall|i: int| #[trigger] self.joints.occ(i) ==> joint_wf(self.joints.val_at(i))
        &&& self.springs.wf()
        &&& forall|i: int| #[trigger] self.springs.occ(i) ==> spring_wf(self.springs.val_at(i))
        &&& forall|k: int|
            0 <= k < self.constraints@.len() ==> constraint_wf(#[trigger] self.constraints@[k])
        &&& self.spatial_hash.wf()
        &&& forall|i: int|
            #[trigger] self.rbd_set.arena.occ(i) ==> self.spatial_hash.points_s().contains_key(
                slot_bits(self.rbd_set, i) as u64,
            )
        &&& forall|id: u64|
            #[trigger] self.spatial_hash.points_s().contains_key(id) ==> {
                &&& self.rbd_set.arena.occ((id as int) % 0x1_0000_0000)
                &&& self.rbd_set.arena.gen_at((id as int) % 0x1_0000_0000) == (id as int)
                    / 0x1_0000_0000
            }
        &&& 0 <= self.accumulator <= FX_LIM
        &&& 0 <= self.time <= FX_LIM
    }

    /// An engine with empty stores, a two-unit spatial cell size, eight
    /// substeps and four joint iterations.
    pub fn new(gravity: Vec2, use_spatial_hash: bool) -> (r: Physics)
        requires
            in_lim_v(gravity@),
        ensures
            r.wf(),
            r.gravity == gravity,
            r.use_spatial_hash == use_spatial_hash,
            r.substeps == 8,
            r.joint_iterations == 4,
            r.collisions_enabled,
            r.rbd_set.arena.length() == 0,
            r.col_set.arena.length() == 0,
            r.collision_events@.len() == 0,
            r.constraints@.len() == 0,
            forall|h: Index| !r.rbd_set.arena.valid(h) && !r.col_set.arena.valid(h),
            r.joints.length() == 0,
            r.springs.length() == 0,
            forall|h: Index| !r.joints.valid(h) && !r.springs.valid(h),
            r.accumulator == 0,
            r.time == 0,
            r.spatial_hash.cell_size_s() == 2 * FX_ONE,
            r.spatial_hash.points_s() == Map::<u64, crate::spatial::CellPoint>::empty(),
    {
        Physics {
            gravity,
            substeps: 8,
            joint_iterations: 4,
            rbd_set: RigidBodySet::new(),
            col_set: ColliderSet::new(),
            joints: Arena::new(),
            springs: Arena::new(),
            constraints: Vec::new(),
            spatial_hash: SpatialHash::new(2 * FX_ONE),
            use_spatial_hash,
            collision_events: Vec::new(),
            collisions_enabled: true,
            accumulator: 0,
            time: 0,
        }
    }

    /// The body behind a live handle.
    pub fn get_rbd(&self, handle: RigidBodyHandle) -> (r: Option<&RigidBody>)
        ensures
            match r {
                Some(b) => self.rbd_set.arena.valid(handle.0) && *b == self.rbd_set.arena.at(
                    handle.0,
                ),
                None => !self.rbd_set.arena.valid(handle.0),
            },
    {
        self.rbd_set.get(handle)
    }

    /// Mutable access to the body behind a live handle.  A caller that
    /// writes the position directly must keep the spatial index in step
    /// through `move_point`; the integrator re-syncs it each substep.
    pub fn get_mut_rbd(&mut self, handle: RigidBodyHandle) -> (r: &mut RigidBody)
        requires
            old(self).rbd_set.arena.wf(),
            old(self).rbd_set.arena.valid(handle.0),
        ensures
            *r == old(self).rbd_set.arena.at(handle.0),
            final(self).rbd_set.arena.at(handle.0) == *final(r),
            *final(self) == (Physics { rbd_set: final(self).rbd_set, ..*old(self) }),
            final(self).rbd_set.arena.wf(),
            final(self).rbd_set.arena.valid(handle.0),
            final(self).rbd_set.arena.slot_count() == old(self).rbd_set.arena.slot_count(),
            final(self).rbd_set.arena.length() == old(self).rbd_set.arena.length(),
            forall|i: int|
                0 <= i < final(self).rbd_set.arena.slot_count() && i != handle.0.slot ==> {
                    &&& #[trigger] final(self).rbd_set.arena.occ(i) == old(self).rbd_set.arena.occ(
                        i,
                    )
                    &&& final(self).rbd_set.arena.gen_at(i) == old(self).rbd_set.arena.gen_at(i)
                    &&& (old(self).rbd_set.arena.occ(i) ==> final(self).rbd_set.arena.val_at(i)
                        == old(self).rbd_set.arena.val_at(i))
                },
            final(self).rbd_set.arena.gen_at(handle.0.slot as int) == old(self).rbd_set.arena.gen_at(handle.0.slot as int),
            forall|h2: Index|
                final(self).rbd_set.arena.valid(h2) <==> old(self).rbd_set.arena.valid(h2),
    {
        self.rbd_set.get_mut(handle)
    }

    /// The number of live bodies.
    pub fn rbd_count(&self) -> (r: usize)
        requires
            self.rbd_set.arena.wf(),
        ensures
            r == self.rbd_set.arena.length(),
    {
        self.rbd_set.len()
    }

    /// The number of live colliders.
    pub fn col_count(&self) -> (r: usize)
        requires
            self.col_set.arena.wf(),
        ensures
            r == self.col_set.arena.length(),
    {
        self.col_set.len()
    }

    /// Take all pending collision events, leaving the queue empty.
    pub fn drain_collision_events(&mut self) -> (r: Vec<CollisionEvent>)
        ensures
            r == old(self).collision_events,
            *final(self) == (Physics { collision_events: final(self).collision_events, ..*old(self) }),
            final(self).collision_events@.len() == 0,
    {
        let mut out: Vec<CollisionEvent> = Vec::new();
        core::mem::swap(&mut out, &mut self.collision_events);
        out
    }

    /// Register a boundary constraint.
    pub fn add_constraint(&mut self, constraint: Constraint)
        requires
            constraint_wf(constraint),
        ensures
            *final(self) == (Physics { constraints: final(self).constraints, ..*old(self) }),
            final(self).constraints@ == old(self).constraints@.push(constraint),
    {
        self.constraints.push(constraint);
    }

    /// Store a body and give it a spatial-hash point at its position,
    /// keyed by the handle's bits, with a half-unit query radius.
    pub fn insert_rbd(&mut self, rbd: RigidBody) -> (h: RigidBodyHandle)
        requires
            old(self).wf(),
            body_wf(rbd),
            old(self).rbd_set.arena.slot_count() < 0xFFFF_FFFF,
        ensures
            final(self).wf(),
            final(self).rbd_set.arena.valid(h.0),
            final(self).rbd_set.arena.at(h.0) == rbd,
            !old(self).rbd_set.arena.valid(h.0),
            final(self).rbd_set.arena.length() == old(self).rbd_set.arena.length() + 1,
            forall|h2: Index|
                h2 != h.0 ==> (final(self).rbd_set.arena.valid(h2) <==> old(self).rbd_set.arena.valid(h2)),
            forall|h2: Index|
                old(self).rbd_set.arena.valid(h2) ==> final(self).rbd_set.arena.at(h2) == old(self).rbd_set.arena.at(h2),
            final(self).col_set == old(self).col_set,
            final(self).joints == old(self).joints,
            final(self).springs == old(self).springs,
            // the body is indexed in the broad phase at once, under its
            // handle bits, at its position, with a half-unit radius
            final(self).spatial_hash.points_s() == old(self).spatial_hash.points_s().insert(
                h.0.bits() as u64,
                crate::spatial::CellPoint {
                    id: h.0.bits() as u64,
                    position: rbd.position,
                    radius: (FX_ONE / 2) as i64,
                },
            ),
    {
        let ghost pre = *self;
        let position = rbd.position;
        let h = self.rbd_set.insert(rbd);
        let bits = h.0.to_bits();
        proof {
            assert(self.spatial_hash.wf());
            if self.spatial_hash.points_s().contains_key(bits) {
                let id = bits;
                assert(pre.rbd_set.arena.occ((id as int) % 0x1_0000_0000));
                vstd::arithmetic::div_mod::lemma_fundamental_div_mod_converse(
                    h.0.bits(),
                    0x1_0000_0000,
                    h.0.generation as int,
                    h.0.slot as int,
                );
                assert((id as int) % 0x1_0000_0000 == h.0.slot as int);
                assert(!pre.rbd_set.arena.occ(h.0.slot as int));
                assert(false);
            }
        }
        self.spatial_hash.insert_with_id(bits, position, FX_ONE / 2);
        proof {
            assert forall|i: int| #[trigger] self.rbd_set.arena.occ(i) implies body_wf(
                self.rbd_set.arena.val_at(i),
            ) by {
                if i == h.0.slot {
                    assert(self.rbd_set.arena.at(h.0) == rbd);
                } else if i < pre.rbd_set.arena.slot_count() {
                    assert(pre.rbd_set.arena.occ(i));
                } else {
                    assert(false);
                }
            }
            self.lemma_sync_after_insert(pre, h, bits);
        }
        h
    }

    /// Re-establishing the spatial sync after a body insert.
    proof fn lemma_sync_after_insert(self, pre: Physics, h: RigidBodyHandle, bits: u64)
        requires
            pre.wf(),
            bits == h.0.bits(),
            h.0.slot < self.rbd_set.arena.slot_count(),
            self.rbd_set.arena.wf(),
            self.rbd_set.arena.valid(h.0),
            pre.rbd_set.arena.slot_count() <= self.rbd_set.arena.slot_count(),
            forall|i: int|
                0 <= i < pre.rbd_set.arena.slot_count() && i != h.0.slot ==> {
                    &&& #[trigger] self.rbd_set.arena.occ(i) == pre.rbd_set.arena.occ(i)
                    &&& self.rbd_set.arena.gen_at(i) == pre.rbd_set.arena.gen_at(i)
                },
            self.rbd_set.arena.slot_count() == pre.rbd_set.arena.slot_count() + 1 ==> h.0.slot
                == pre.rbd_set.arena.slot_count(),
            forall|i: int|
                #[trigger] self.rbd_set.arena.occ(i) && i != h.0.slot ==> pre.rbd_set.arena.occ(i),
            !pre.rbd_set.arena.occ(h.0.slot as int),
            self.spatial_hash.points_s().dom() == pre.spatial_hash.points_s().dom().insert(bits),
        ensures
            forall|i: int|
                #[trigger] self.rbd_set.arena.occ(i)
                    ==> self.spatial_hash.points_s().contains_key(
                    slot_bits(self.rbd_set, i) as u64,
                ),
            forall|id: u64|
                #[trigger] self.spatial_hash.points_s().contains_key(id) ==> {
                    &&& self.rbd_set.arena.occ((id as int) % 0x1_0000_0000)
                    &&& self.rbd_set.arena.gen_at((id as int) % 0x1_0000_0000) == (id as int)
                        / 0x1_0000_0000
                },
    {
        vstd::arithmetic::div_mod::lemma_fundamental_div_mod_converse(
            h.0.bits(),
            0x1_0000_0000,
            h.0.generation as int,
            h.0.slot as int,
        );
        assert forall|i: int|
            #[trigger] self.rbd_set.arena.occ(i) implies self.spatial_hash.points_s().contains_key(
            slot_bits(self.rbd_set, i) as u64,
        ) by {
            if i == h.0.slot {
                assert(slot_bits(self.rbd_set, i) == bits);
            } else {
                assert(pre.rbd_set.arena.occ(i));
                assert(slot_bits(self.rbd_set, i) == slot_bits(pre.rbd_set, i));
                assert(pre.spatial_hash.points_s().contains_key(
                    slot_bits(pre.rbd_set, i) as u64,
                ));
            }
        }
        assert forall|id: u64|
            #[trigger] self.spatial_hash.points_s().contains_key(id) implies {
            &&& self.rbd_set.arena.occ((id as int) % 0x1_0000_0000)
            &&& self.rbd_set.arena.gen_at((id as int) % 0x1_0000_0000) == (id as int)
                / 0x1_0000_0000
        } by {
            if id == bits {
                assert((id as int) % 0x1_0000_0000 == h.0.slot as int);
                assert((id as int) / 0x1_0000_0000 == h.0.generation as int);
            } else {
                assert(pre.spatial_hash.points_s().contains_key(id));
                let s = (id as int) % 0x1_0000_0000;
                assert(pre.rbd_set.arena.occ(s));
                if s == h.0.slot {
                    assert(false);
                }
            }
        }
    }

    /// Store a collider attached to a live parent body; the parent's
    /// collider list and mass are updated.  The parent must be live.
    pub fn insert_collider_with_parent(
        &mut self,
        collider: Collider,
        rbd_handle: RigidBodyHandle,
    ) -> (h: ColliderHandle)
        requires
            old(self).wf(),
            collider_wf(collider),
            old(self).col_set.arena.slot_count() < 0xFFFF_FFFF,
            old(self).rbd_set.arena.valid(rbd_handle.0),
        ensures
            final(self).wf(),
            final(self).col_set.arena.valid(h.0),
            final(self).col_set.arena.at(h.0) == (Collider {
                parent: Some(rbd_handle),
                ..collider
            }),
            final(self).col_set.arena.length() == old(self).col_set.arena.length() + 1,
            forall|h2: Index|
                h2 != h.0 ==> (final(self).col_set.arena.valid(h2) <==> old(self).col_set.arena.valid(h2)),
            forall|h2: Index|
                old(self).col_set.arena.valid(h2) ==> final(self).col_set.arena.at(h2) == old(self).col_set.arena.at(h2),
            forall|h2: Index|
                final(self).rbd_set.arena.valid(h2) <==> old(self).rbd_set.arena.valid(h2),
            final(self).rbd_set.arena.at(rbd_handle.0).colliders@ == old(self).rbd_set.arena.at(rbd_handle.0).colliders@.push(h),
            // the parent's mass and inertia are recomputed over the
            // grown list, new collider included
            ({
                let b1 = final(self).rbd_set.arena.at(rbd_handle.0);
                &&& b1.calculated_mass == crate::collider::mass_sum(
                    final(self).col_set,
                    b1.colliders@,
                    b1.colliders@.len() as int,
                )
                &&& b1.inertia == crate::collider::inertia_sum(
                    final(self).col_set,
                    b1.colliders@,
                    b1.colliders@.len() as int,
                )
                &&& b1 == (RigidBody {
                    colliders: b1.colliders,
                    calculated_mass: b1.calculated_mass,
                    inertia: b1.inertia,
                    ..old(self).rbd_set.arena.at(rbd_handle.0)
                })
            }),
            forall|h2: Index|
                h2 != rbd_handle.0 && old(self).rbd_set.arena.valid(h2) ==> final(self).rbd_set.arena.at(h2) == old(self).rbd_set.arena.at(h2),
            final(self).spatial_hash == old(self).spatial_hash,
            final(self).joints == old(self).joints,
            final(self).springs == old(self).springs,
    {
        let ghost pre = *self;
        let h = self.col_set.insert_with_parent(collider, rbd_handle, &mut self.rbd_set);
        proof {
            assert forall|i: int|
                #[trigger] self.rbd_set.arena.occ(i) implies self.spatial_hash.points_s()
                .contains_key(slot_bits(self.rbd_set, i) as u64) by {
                assert(pre.rbd_set.arena.occ(i));
                assert(slot_bits(self.rbd_set, i) == slot_bits(pre.rbd_set, i));
            }
            assert forall|id: u64|
                #[trigger] self.spatial_hash.points_s().contains_key(id) implies {
                &&& self.rbd_set.arena.occ((id as int) % 0x1_0000_0000)
                &&& self.rbd_set.arena.gen_at((id as int) % 0x1_0000_0000) == (id as int)
                    / 0x1_0000_0000
            } by {
                let s = (id as int) % 0x1_0000_0000;
                assert(pre.rbd_set.arena.occ(s));
            }
        }
        h
    }

    /// Remove a body: its colliders are deleted first, then the body and
    /// its spatial point.  Stale handles remove nothing.
    pub fn remove_rbd(&mut self, handle: RigidBodyHandle)
        requires
            old(self).wf(),
        ensures
            final(self).wf(),
            !final(self).rbd_set.arena.valid(handle.0),
            forall|h2: Index|
                h2 != handle.0 && old(self).rbd_set.arena.valid(h2) ==> final(self).rbd_set.arena.valid(h2) && final(self).rbd_set.arena.at(h2) == old(self).rbd_set.arena.at(h2),
            forall|h2: Index|
                final(self).rbd_set.arena.valid(h2) ==> old(self).rbd_set.arena.valid(h2),
            final(self).joints == old(self).joints,
            final(self).springs == old(self).springs,
            final(self).constraints == old(self).constraints,
            // a stale handle removes nothing at all
            !old(self).rbd_set.arena.valid(handle.0) ==> *final(self) == *old(self),
            // a live handle takes its colliders and its spatial point
            // with it, and nothing else
            old(self).rbd_set.arena.valid(handle.0) ==> {
                let listed = old(self).rbd_set.arena.at(handle.0).colliders@;
                &&& forall|q: int|
                    0 <= q < listed.len() ==> !final(self).col_set.arena.valid(
                        (#[trigger] listed[q]).0,
                    )
                &&& forall|h2: Index|
                    final(self).col_set.arena.valid(h2) ==> old(self).col_set.arena.valid(h2)
                &&& forall|h2: Index|
                    old(self).col_set.arena.valid(h2) && (forall|q: int|
                        0 <= q < listed.len() ==> (#[trigger] listed[q]).0 != h2) ==> final(self).col_set.arena.valid(h2) && final(self).col_set.arena.at(h2) == old(self).col_set.arena.at(h2)
                &&& !final(self).spatial_hash.points_s().contains_key(handle.0.bits() as u64)
                &&& final(self).spatial_hash.points_s() == old(self).spatial_hash.points_s().remove(handle.0.bits() as u64)
            },
    {
        let ghost pre = *self;
        let to_remove: Option<Vec<ColliderHandle>> = match self.rbd_set.get(handle) {
            Some(body) => {
                let mut hs: Vec<ColliderHandle> = Vec::new();
                let n = body.colliders.len();
                let mut i: usize = 0;
                while i < n
                    invariant
                        0 <= i <= n,
                        n == body.colliders@.len(),
                        hs@ == body.colliders@.subrange(0, i as int),
                    decreases n - i,
                {
                    hs.push(body.colliders[i]);
                    proof {
                        assert(hs@ =~= body.colliders@.subrange(0, i as int + 1));
                    }
                    i = i + 1;
                }
                proof {
                    assert(hs@ =~= body.colliders@);
                }
                Some(hs)
            },
            None => None,
        };
        match to_remove {
            Some(hs) => {
                let n = hs.len();
                let mut i: usize = 0;
                while i < n
                    invariant
                        0 <= i <= n,
                        n == hs@.len(),
                        hs@ == pre.rbd_set.arena.at(handle.0).colliders@,
                        pre.rbd_set.arena.valid(handle.0),
                        self.col_set.wf(),
                        self.col_set.arena.slot_count() == pre.col_set.arena.slot_count(),
                        self.rbd_set == pre.rbd_set,
                        self.spatial_hash == pre.spatial_hash,
                        self.joints == pre.joints,
                        self.springs == pre.springs,
                        self.constraints == pre.constraints,
                        self.gravity == pre.gravity,
                        self.substeps == pre.substeps,
                        self.accumulator == pre.accumulator,
                        self.time == pre.time,
                        pre.wf(),
                        forall|q: int|
                            0 <= q < i ==> !self.col_set.arena.valid((#[trigger] hs@[q]).0),
                        forall|h2: Index|
                            self.col_set.arena.valid(h2) ==> pre.col_set.arena.valid(h2),
                        forall|h2: Index|
                            pre.col_set.arena.valid(h2) && (forall|q: int|
                                0 <= q < n ==> (#[trigger] hs@[q]).0 != h2) ==> self
                                .col_set.arena.valid(h2) && self.col_set.arena.at(h2)
                                == pre.col_set.arena.at(h2),
                    decreases n - i,
                {
                    let ghost curc = self.col_set;
                    self.col_set.remove_ignoring_parent(hs[i]);
                    proof {
                        assert forall|q: int|
                            0 <= q < i + 1 implies !self.col_set.arena.valid(
                            (#[trigger] hs@[q]).0,
                        ) by {
                            if q < i {
                                if self.col_set.arena.valid(hs@[q].0) {
                                    assert(curc.arena.valid(hs@[q].0));
                                }
                            }
                        }
                        assert forall|h2: Index|
                            pre.col_set.arena.valid(h2) && (forall|q: int|
                                0 <= q < n ==> (#[trigger] hs@[q]).0 != h2) implies self
                            .col_set.arena.valid(h2) && self.col_set.arena.at(h2)
                            == pre.col_set.arena.at(h2) by {
                            assert(hs@[i as int].0 != h2);
                            assert(curc.arena.valid(h2) && curc.arena.at(h2)
                                == pre.col_set.arena.at(h2));
                        }
                    }
                    i = i + 1;
                }
                let removed = self.rbd_set.remove_rbd(handle);
                let bits = handle.0.to_bits();
                self.spatial_hash.remove(bits);
                proof {
                    self.lemma_sync_after_remove(pre, handle, bits, removed is Some);
                }
            },
            None => {},
        }
    }

    /// Re-establishing the spatial sync after a body removal.
    proof fn lemma_sync_after_remove(
        self,
        pre: Physics,
        handle: RigidBodyHandle,
        bits: u64,
        was_live: bool,
    )
        requires
            pre.wf(),
            bits == handle.0.bits(),
            self.rbd_set.arena.wf(),
            self.rbd_set.arena.slot_count() == pre.rbd_set.arena.slot_count(),
            was_live ==> !self.rbd_set.arena.occ(handle.0.slot as int),
            was_live ==> pre.rbd_set.arena.valid(handle.0),
            !was_live ==> !pre.rbd_set.arena.valid(handle.0),
            !was_live ==> self.rbd_set == pre.rbd_set,
            forall|i: int|
                0 <= i < self.rbd_set.arena.slot_count() && i != handle.0.slot ==> {
                    &&& #[trigger] self.rbd_set.arena.occ(i) == pre.rbd_set.arena.occ(i)
                    &&& self.rbd_set.arena.gen_at(i) == pre.rbd_set.arena.gen_at(i)
                },
            self.spatial_hash.points_s() == if pre.spatial_hash.points_s().contains_key(bits) {
                pre.spatial_hash.points_s().remove(bits)
            } else {
                pre.spatial_hash.points_s()
            },
        ensures
            forall|i: int|
                #[trigger] self.rbd_set.arena.occ(i)
                    ==> self.spatial_hash.points_s().contains_key(
                    slot_bits(self.rbd_set, i) as u64,
                ),
            forall|id: u64|
                #[trigger] self.spatial_hash.points_s().contains_key(id) ==> {
                    &&& self.rbd_set.arena.occ((id as int) % 0x1_0000_0000)
                    &&& self.rbd_set.arena.gen_at((id as int) % 0x1_0000_0000) == (id as int)
                        / 0x1_0000_0000
                },
    {
        vstd::arithmetic::div_mod::lemma_fundamental_div_mod_converse(
            handle.0.bits(),
            0x1_0000_0000,
            handle.0.generation as int,
            handle.0.slot as int,
        );
        assert forall|i: int|
            #[trigger] self.rbd_set.arena.occ(i) implies self.spatial_hash.points_s().contains_key(
            slot_bits(self.rbd_set, i) as u64,
        ) by {
            assert(i != handle.0.slot || !was_live);
            assert(pre.rbd_set.arena.occ(i));
            assert(slot_bits(self.rbd_set, i) == slot_bits(pre.rbd_set, i));
            let sb = slot_bits(pre.rbd_set, i) as u64;
            assert(pre.spatial_hash.points_s().contains_key(sb));
            if sb == bits {
                vstd::arithmetic::div_mod::lemma_fundamental_div_mod_converse(
                    slot_bits(pre.rbd_set, i),
                    0x1_0000_0000,
                    pre.rbd_set.arena.gen_at(i),
                    i,
                );
                assert(i == handle.0.slot as int);
                assert(pre.rbd_set.arena.gen_at(i) == handle.0.generation as int);
                assert(was_live);
                assert(false);
            }
        }
        assert forall|id: u64|
            #[trigger] self.spatial_hash.points_s().contains_key(id) implies {
            &&& self.rbd_set.arena.occ((id as int) % 0x1_0000_0000)
            &&& self.rbd_set.arena.gen_at((id as int) % 0x1_0000_0000) == (id as int)
                / 0x1_0000_0000
        } by {
            assert(pre.spatial_hash.points_s().contains_key(id));
            let s = (id as int) % 0x1_0000_0000;
            assert(pre.rbd_set.arena.occ(s));
            if s == handle.0.slot as int && was_live {
                assert(pre.rbd_set.arena.gen_at(s) == (id as int) / 0x1_0000_0000);
                vstd::arithmetic::div_mod::lemma_mod_bound(id as int, 0x1_0000_0000);
                vstd::arithmetic::div_mod::lemma_fundamental_div_mod(id as int, 0x1_0000_0000);
                assert(id as int == ((id as int) / 0x1_0000_0000) * 0x1_0000_0000 + s);
                assert(pre.rbd_set.arena.gen_at(s) == handle.0.generation as int);
                assert(id == bits);
                assert(false);
            }
        }
    }

    /// Shift a body and its spatial point by an offset together, each
    /// saturated at the world bound.  Unknown handle bits are a no-op.
    pub fn update_rigid_body_position(&mut self, id: u64, offset: Vec2)
        requires
            old(self).wf(),
            in_lim_v(offset@),
        ensures
            final(self).wf(),
            forall|h2: Index|
                final(self).rbd_set.arena.valid(h2) <==> old(self).rbd_set.arena.valid(h2),
            ({
                let s = (id as int) % 0x1_0000_0000;
                old(self).rbd_set.arena.occ(s) && old(self).rbd_set.arena.gen_at(s) == (
                id as int) / 0x1_0000_0000 ==> {
                    &&& final(self).rbd_set.arena.val_at(s) == (RigidBody {
                        position: Vec2 {
                            x: clamp_s(
                                old(self).rbd_set.arena.val_at(s).position@.x + offset@.x,
                            ) as i64,
                            y: clamp_s(
                                old(self).rbd_set.arena.val_at(s).position@.y + offset@.y,
                            ) as i64,
                        },
                        ..old(self).rbd_set.arena.val_at(s)
                    })
                    &&& forall|j: int|
                        #[trigger] old(self).rbd_set.arena.occ(j) && j != s ==> final(self).rbd_set.arena.val_at(j) == old(self).rbd_set.arena.val_at(j)
                }
            }),
            ({
                let s = (id as int) % 0x1_0000_0000;
                !(old(self).rbd_set.arena.occ(s) && old(self).rbd_set.arena.gen_at(s) == (
                id as int) / 0x1_0000_0000) ==> *final(self) == *old(self)
            }),
    {
        let ghost pre = *self;
        let handle = RigidBodyHandle(Index::from_bits(id));
        proof {
            vstd::arithmetic::div_mod::lemma_fundamental_div_mod_converse(
                handle.0.bits(),
                0x1_0000_0000,
                handle.0.generation as int,
                handle.0.slot as int,
            );
            assert(handle.0.slot as int == (id as int) % 0x1_0000_0000);
            assert(handle.0.generation as int == (id as int) / 0x1_0000_0000);
        }
        if self.rbd_set.contains(handle) {
            self.spatial_hash.move_point(id, offset);
            let body = self.rbd_set.get_mut(handle);
            let p = v2_clamp(v2_add(body.position, offset));
            body.position = p;
            proof {
                assert forall|i: int|
                    #[trigger] self.rbd_set.arena.occ(i) implies self.spatial_hash.points_s()
                    .contains_key(slot_bits(self.rbd_set, i) as u64) by {
                    assert(pre.rbd_set.arena.occ(i));
                    assert(slot_bits(self.rbd_set, i) == slot_bits(pre.rbd_set, i));
                }
                assert forall|id2: u64|
                    #[trigger] self.spatial_hash.points_s().contains_key(id2) implies {
                    &&& self.rbd_set.arena.occ((id2 as int) % 0x1_0000_0000)
                    &&& self.rbd_set.arena.gen_at((id2 as int) % 0x1_0000_0000) == (id2 as int)
                        / 0x1_0000_0000
                } by {
                    assert(pre.spatial_hash.points_s().contains_key(id2));
                    assert(pre.rbd_set.arena.occ((id2 as int) % 0x1_0000_0000));
                }
                assert forall|i: int|
                    #[trigger] self.rbd_set.arena.occ(i) implies body_wf(
                    self.rbd_set.arena.val_at(i),
                ) by {
                    assert(pre.rbd_set.arena.occ(i));
                    if i != handle.0.slot {
                        assert(self.rbd_set.arena.val_at(i) == pre.rbd_set.arena.val_at(i));
                    }
                }
                assert(self.rbd_set.arena.val_at(handle.0.slot as int) == (RigidBody {
                    position: p,
                    ..pre.rbd_set.arena.val_at(handle.0.slot as int)
                }));
                assert forall|j: int|
                    #[trigger] pre.rbd_set.arena.occ(j) && j != handle.0.slot implies self
                    .rbd_set.arena.val_at(j) == pre.rbd_set.arena.val_at(j) by {
                    assert(self.rbd_set.arena.occ(j) == pre.rbd_set.arena.occ(j));
                }
            }
        }
    }

    /// Create a joint between two live bodies, capturing the current
    /// anchor distance as the rest distance.
    pub fn create_fixed_joint(
        &mut self,
        rbd_handle_a: RigidBodyHandle,
        rbd_handle_b: RigidBodyHandle,
        anchor_a: Vec2,
        anchor_b: Vec2,
    ) -> (jh: JointHandle)
        requires
            old(self).wf(),
            old(self).rbd_set.arena.valid(rbd_handle_a.0),
            old(self).rbd_set.arena.valid(rbd_handle_b.0),
            in_lim_v(anchor_a@),
            in_lim_v(anchor_b@),
            old(self).joints.slot_count() < 0xFFFF_FFFF,
        ensures
            final(self).wf(),
            final(self).joints.valid(jh.0),
            final(self).joints.at(jh.0).rigid_body_a == rbd_handle_a,
            final(self).joints.at(jh.0).rigid_body_b == rbd_handle_b,
            final(self).joints.at(jh.0).distance == clamp_s(
                v_len(
                    v_sub(
                        v_clamp(
                            v_add(
                                old(self).rbd_set.arena.at(rbd_handle_a.0).position@,
                                anchor_a@,
                            ),
                        ),
                        v_clamp(
                            v_add(
                                old(self).rbd_set.arena.at(rbd_handle_b.0).position@,
                                anchor_b@,
                            ),
                        ),
                    ),
                ),
            ),
            final(self).joints.at(jh.0).anchor_a == anchor_a,
            final(self).joints.at(jh.0).anchor_b == anchor_b,
            final(self).joints.at(jh.0).target_angle == clamp_s(
                old(self).rbd_set.arena.at(rbd_handle_b.0).rotation - old(self).rbd_set.arena.at(rbd_handle_a.0).rotation,
            ) as i64,
            forall|h2: Index|
                old(self).joints.valid(h2) ==> final(self).joints.valid(h2) && final(self).joints.at(h2) == old(self).joints.at(h2),
            forall|h2: Index|
                final(self).rbd_set.arena.valid(h2) <==> old(self).rbd_set.arena.valid(h2),
            forall|h2: Index|
                h2 != rbd_handle_a.0 && h2 != rbd_handle_b.0 && old(self).rbd_set.arena.valid(
                    h2,
                ) ==> final(self).rbd_set.arena.at(h2) == old(self).rbd_set.arena.at(h2),
    {
        let (pa, pb) = {
            let a = match self.rbd_set.get(rbd_handle_a) {
                Some(b) => b.position,
                None => {
                    proof {
                        assert(false);
                    }
                    unreached()
                },
            };
            let b = match self.rbd_set.get(rbd_handle_b) {
                Some(b) => b.position,
                None => {
                    proof {
                        assert(false);
                    }
                    unreached()
                },
            };
            (a, b)
        };
        let wa = v2_clamp(v2_add(pa, anchor_a));
        let wb = v2_clamp(v2_add(pb, anchor_b));
        let d = v2_len_wide(v2_sub(wa, wb));
        let dist = crate::fx::clamp64(d);
        self.create_fixed_joint_with_distance(rbd_handle_a, rbd_handle_b, anchor_a, anchor_b, dist)
    }

    /// Create a joint between two live bodies with an explicit rest
    /// distance, capturing the current relative rotation as the target
    /// angle.
    pub fn create_fixed_joint_with_distance(
        &mut self,
        rbd_handle_a: RigidBodyHandle,
        rbd_handle_b: RigidBodyHandle,
        anchor_a: Vec2,
        anchor_b: Vec2,
        distance: i64,
    ) -> (jh: JointHandle)
        requires
            old(self).wf(),
            old(self).rbd_set.arena.valid(rbd_handle_a.0),
            old(self).rbd_set.arena.valid(rbd_handle_b.0),
            in_lim_v(anchor_a@),
            in_lim_v(anchor_b@),
            0 <= distance <= FX_LIM,
            old(self).joints.slot_count() < 0xFFFF_FFFF,
        ensures
            final(self).wf(),
            final(self).joints.valid(jh.0),
            final(self).joints.at(jh.0) == (FixedJoint {
                rigid_body_a: rbd_handle_a,
                rigid_body_b: rbd_handle_b,
                anchor_a,
                anchor_b,
                distance,
                target_angle: clamp_s(
                    old(self).rbd_set.arena.at(rbd_handle_b.0).rotation - old(self).rbd_set.arena.at(rbd_handle_a.0).rotation,
                ) as i64,
            }),
            forall|h2: Index|
                final(self).rbd_set.arena.valid(h2) <==> old(self).rbd_set.arena.valid(h2),
            forall|h2: Index|
                old(self).joints.valid(h2) ==> final(self).joints.valid(h2) && final(self).joints.at(h2) == old(self).joints.at(h2),
            !old(self).joints.valid(jh.0),
            // each endpoint body only gains the new joint in its list;
            // a self-joint registers once
            rbd_handle_a.0.slot != rbd_handle_b.0.slot ==> final(self).rbd_set.arena.at(
                rbd_handle_a.0,
            ) == (RigidBody {
                connected_joints: final(self).rbd_set.arena.at(rbd_handle_a.0).connected_joints,
                ..old(self).rbd_set.arena.at(rbd_handle_a.0)
            }) && final(self).rbd_set.arena.at(rbd_handle_a.0).connected_joints@ == old(self).rbd_set.arena.at(rbd_handle_a.0).connected_joints@.push(jh) && final(self).rbd_set.arena.at(rbd_handle_b.0) == (RigidBody {
                connected_joints: final(self).rbd_set.arena.at(rbd_handle_b.0).connected_joints,
                ..old(self).rbd_set.arena.at(rbd_handle_b.0)
            }) && final(self).rbd_set.arena.at(rbd_handle_b.0).connected_joints@ == old(self).rbd_set.arena.at(rbd_handle_b.0).connected_joints@.push(jh),
            forall|h2: Index|
                h2 != rbd_handle_a.0 && h2 != rbd_handle_b.0 && old(self).rbd_set.arena.valid(
                    h2,
                ) ==> final(self).rbd_set.arena.at(h2) == old(self).rbd_set.arena.at(h2),
    {
        let ghost pre = *self;
        let (rot_a, rot_b) = {
            let a = match self.rbd_set.get(rbd_handle_a) {
                Some(b) => b.rotation,
                None => {
                    proof {
                        assert(false);
                    }
                    unreached()
                },
            };
            let b = match self.rbd_set.get(rbd_handle_b) {
                Some(b) => b.rotation,
                None => {
                    proof {
                        assert(false);
                    }
                    unreached()
                },
            };
            (a, b)
        };
        let target_angle = crate::fx::clamp64(rot_b - rot_a);
        let joint = FixedJoint {
            rigid_body_a: rbd_handle_a,
            rigid_body_b: rbd_handle_b,
            anchor_a,
            anchor_b,
            distance,
            target_angle,
        };
        let jh = JointHandle(self.joints.insert(joint));
        let ghost mj = *self;
        {
            let body_a = self.rbd_set.get_mut(rbd_handle_a);
            body_a.connected_joints.push(jh);
        }
        let ghost ma = *self;
        if rbd_handle_b.0.slot != rbd_handle_a.0.slot {
            let body_b = self.rbd_set.get_mut(rbd_handle_b);
            body_b.connected_joints.push(jh);
        }
        proof {
            if rbd_handle_a.0.slot != rbd_handle_b.0.slot {
                assert(ma.rbd_set.arena.at(rbd_handle_a.0) == (RigidBody {
                    connected_joints: ma.rbd_set.arena.at(rbd_handle_a.0).connected_joints,
                    ..pre.rbd_set.arena.at(rbd_handle_a.0)
                }));
                assert(self.rbd_set.arena.occ(rbd_handle_a.0.slot as int));
                assert(self.rbd_set.arena.val_at(rbd_handle_a.0.slot as int)
                    == ma.rbd_set.arena.val_at(rbd_handle_a.0.slot as int));
                assert(self.rbd_set.arena.at(rbd_handle_b.0) == (RigidBody {
                    connected_joints: self.rbd_set.arena.at(rbd_handle_b.0).connected_joints,
                    ..ma.rbd_set.arena.at(rbd_handle_b.0)
                }));
                assert(ma.rbd_set.arena.at(rbd_handle_b.0) == pre.rbd_set.arena.at(
                    rbd_handle_b.0,
                ));
            }
            assert forall|h2: Index|
                h2 != rbd_handle_a.0 && h2 != rbd_handle_b.0 && pre.rbd_set.arena.valid(
                    h2,
                ) implies self.rbd_set.arena.at(h2) == pre.rbd_set.arena.at(h2) by {
                assert(self.rbd_set.arena.occ(h2.slot as int) == pre.rbd_set.arena.occ(
                    h2.slot as int,
                ));
                if h2.slot != rbd_handle_a.0.slot && h2.slot != rbd_handle_b.0.slot {
                    assert(ma.rbd_set.arena.val_at(h2.slot as int) == pre.rbd_set.arena.val_at(
                        h2.slot as int,
                    ));
                    assert(self.rbd_set.arena.val_at(h2.slot as int)
                        == ma.rbd_set.arena.val_at(h2.slot as int));
                } else {
                    assert(pre.rbd_set.arena.gen_at(h2.slot as int) == h2.generation);
                }
            }
            assert forall|i: int|
                #[trigger] self.rbd_set.arena.occ(i) implies self.spatial_hash.points_s()
                .contains_key(slot_bits(self.rbd_set, i) as u64) by {
                assert(pre.rbd_set.arena.occ(i));
                assert(slot_bits(self.rbd_set, i) == slot_bits(pre.rbd_set, i));
            }
            assert forall|id2: u64|
                #[trigger] self.spatial_hash.points_s().contains_key(id2) implies {
                &&& self.rbd_set.arena.occ((id2 as int) % 0x1_0000_0000)
                &&& self.rbd_set.arena.gen_at((id2 as int) % 0x1_0000_0000) == (id2 as int)
                    / 0x1_0000_0000
            } by {
                let s = (id2 as int) % 0x1_0000_0000;
                assert(pre.spatial_hash.points_s().contains_key(id2));
                assert(pre.rbd_set.arena.occ(s));
                assert(self.rbd_set.arena.occ(s) == pre.rbd_set.arena.occ(s));
                assert(self.rbd_set.arena.gen_at(s) == pre.rbd_set.arena.gen_at(s));
            }
            assert forall|i: int|
                #[trigger] self.rbd_set.arena.occ(i) implies body_wf(
                self.rbd_set.arena.val_at(i),
            ) by {
                assert(pre.rbd_set.arena.occ(i));
                if i != rbd_handle_a.0.slot && i != rbd_handle_b.0.slot {
                    assert(self.rbd_set.arena.val_at(i) == pre.rbd_set.arena.val_at(i));
                }
            }
            assert forall|i: int| #[trigger] self.joints.occ(i) implies joint_wf(
                self.joints.val_at(i),
            ) by {
                if i != jh.0.slot {
                    assert(pre.joints.occ(i));
                }
            }
        }
        jh
    }

    /// Register a spring.
    pub fn insert_spring(&mut self, spring: Spring) -> (sh: SpringHandle)
        requires
            old(self).wf(),
            spring_wf(spring),
            old(self).springs.slot_count() < 0xFFFF_FFFF,
        ensures
            final(self).wf(),
            final(self).springs.valid(sh.0),
            final(self).springs.at(sh.0) == spring,
            !old(self).springs.valid(sh.0),
            forall|h2: Index|
                h2 != sh.0 ==> (final(self).springs.valid(h2) <==> old(self).springs.valid(h2)),
            forall|h2: Index|
                old(self).springs.valid(h2) ==> final(self).springs.at(h2) == old(self).springs.at(h2),
            *final(self) == (Physics { springs: final(self).springs, ..*old(self) }),
            forall|h2: Index|
                final(self).rbd_set.arena.valid(h2) <==> old(self).rbd_set.arena.valid(h2),
    {
        let ghost pre = *self;
        let sh = SpringHandle(self.springs.insert(spring));
        proof {
            assert forall|i: int| #[trigger] self.springs.occ(i) implies spring_wf(
                self.springs.val_at(i),
            ) by {
                if i != sh.0.slot {
                    assert(pre.springs.occ(i));
                }
            }
        }
        sh
    }

    /// Delete a spring; stale handles remove nothing.
    pub fn remove_spring(&mut self, handle: SpringHandle)
        requires
            old(self).wf(),
        ensures
            final(self).wf(),
            !final(self).springs.valid(handle.0),
            forall|h2: Index|
                h2 != handle.0 && old(self).springs.valid(h2) ==> final(self).springs.valid(h2)
                    && final(self).springs.at(h2) == old(self).springs.at(h2),
            forall|h2: Index| final(self).springs.valid(h2) ==> old(self).springs.valid(h2),
            *final(self) == (Physics { springs: final(self).springs, ..*old(self) }),
            forall|h2: Index|
                final(self).rbd_set.arena.valid(h2) <==> old(self).rbd_set.arena.valid(h2),
    {
        let ghost pre = *self;
        let removed = self.springs.remove(handle.0);
        proof {
            match removed {
                Some(_) => {
                    assert forall|i: int| #[trigger] self.springs.occ(i) implies spring_wf(
                        self.springs.val_at(i),
                    ) by {
                        assert(pre.springs.occ(i));
                    }
                },
                None => {},
            }
        }
    }
}

/// The outcome of resolving one circle pair: whether they overlapped,
/// and both bodies' corrected positions.
#[derive(Clone, Copy, PartialEq, Eq, Structural, Debug)]
pub struct PairResolution {
    pub overlap: bool,
    pub pos_a: Vec2,
    pub pos_b: Vec2,
}

/// A coincident pair is nudged apart by a small fixed amount before the
/// separating axis is recomputed; only dynamic bodies move.
pub open spec fn nudged(p: V2i, is_dynamic: bool, sign: int) -> V2i {
    if is_dynamic {
        v_clamp(V2i { x: p.x + sign * 655, y: p.y })
    } else {
        p
    }
}

/// Mass-ratio resolution of one circle pair, every arithmetic stage
/// exact: penetration `delta = (ra + rb) - distance` is split between
/// the two bodies in inverse proportion to their masses; bodies that are
/// not dynamic never move.
pub open spec fn resolve_pair_s(
    pa: V2i,
    pb: V2i,
    ra: int,
    rb: int,
    ma: int,
    mb: int,
    dyn_a: bool,
    dyn_b: bool,
) -> (bool, V2i, V2i) {
    let axis0 = v_sub(pa, pb);
    let min = ra + rb;
    if v_len_sq(axis0) >= min * min {
        (false, pa, pb)
    } else {
        let degenerate = v_len_sq(axis0) == 0;
        let pa1 = if degenerate {
            nudged(pa, dyn_a, 1)
        } else {
            pa
        };
        let pb1 = if degenerate {
            nudged(pb, dyn_b, -1)
        } else {
            pb
        };
        let axis = v_sub(pa1, pb1);
        let d = v_len(axis);
        if d == 0 {
            (true, pa1, pb1)
        } else {
            let n = v_fxdiv(axis, d);
            let delta = clamp_s(min - d);
            if dyn_a && dyn_b {
                if ma + mb > 0 {
                    let ratio = 0x1_0000 - fx_div_s(ma, ma + mb);
                    let ka = fx_mul_cs(ratio, delta);
                    let kb = fx_mul_cs(0x1_0000 - ratio, delta);
                    let mva = V2i { x: fx_mul_cs(ka, n.x), y: fx_mul_cs(ka, n.y) };
                    let mvb = V2i { x: fx_mul_cs(kb, n.x), y: fx_mul_cs(kb, n.y) };
                    (true, v_clamp(v_add(pa1, mva)), v_clamp(v_sub(pb1, mvb)))
                } else {
                    (true, pa1, pb1)
                }
            } else if dyn_a {
                let mv = V2i { x: fx_mul_cs(delta, n.x), y: fx_mul_cs(delta, n.y) };
                (true, v_clamp(v_add(pa1, mv)), pb1)
            } else if dyn_b {
                let mv = V2i { x: fx_mul_cs(delta, n.x), y: fx_mul_cs(delta, n.y) };
                (true, pa1, v_clamp(v_sub(pb1, mv)))
            } else {
                (true, pa1, pb1)
            }
        }
    }
}

/// A normalized mass fraction lies between zero and one unit.
pub proof fn lemma_ratio_range(ma: int, mb: int)
    requires
        0 <= ma,
        0 <= mb,
        ma + mb > 0,
    ensures
        0 <= fx_div_s(ma, ma + mb) <= 0x1_0000,
{
    let s = ma + mb;
    crate::fx::lemma_tdiv_bound(ma * 0x1_0000, s, s * 0x1_0000);
    assert(ma * 0x1_0000 <= s * 0x1_0000 && 0 <= ma * 0x1_0000 && s * 0x1_0000 >= 0) by (
    nonlinear_arith)
        requires 0 <= ma <= s;
    vstd::arithmetic::div_mod::lemma_div_multiples_vanish(0x1_0000, s);
    vstd::arithmetic::div_mod::lemma_div_pos_is_pos(ma * 0x1_0000, s);
}

/// Resolve one circle pair, exact per `resolve_pair_s`.
pub fn resolve_circle_pair(
    pa: Vec2,
    pb: Vec2,
    ra: i64,
    rb: i64,
    ma: i64,
    mb: i64,
    dyn_a: bool,
    dyn_b: bool,
) -> (r: PairResolution)
    requires
        in_lim_v(pa@),
        in_lim_v(pb@),
        0 <= ra <= FX_LIM,
        0 <= rb <= FX_LIM,
        0 <= ma <= FX_LIM,
        0 <= mb <= FX_LIM,
    ensures
        (r.overlap, r.pos_a@, r.pos_b@) == resolve_pair_s(
            pa@,
            pb@,
            ra as int,
            rb as int,
            ma as int,
            mb as int,
            dyn_a,
            dyn_b,
        ),
        in_lim_v(r.pos_a@),
        in_lim_v(r.pos_b@),
        !dyn_a ==> r.pos_a == pa,
        !dyn_b ==> r.pos_b == pb,
        !r.overlap ==> r.pos_a == pa && r.pos_b == pb,
{
    let axis0 = v2_sub(pa, pb);
    let d2 = crate::vec2::v2_len_sq_wide(axis0);
    let min = ra + rb;
    proof {
        lemma_mul_mag(min as int, min as int, 0x1_0000_0000);
    }
    let min2 = (min as u128) * (min as u128);
    if d2 >= min2 {
        PairResolution { overlap: false, pos_a: pa, pos_b: pb }
    } else {
        let degenerate = d2 == 0;
        let pa1 = if degenerate && dyn_a {
            v2_clamp(v2_add(pa, Vec2 { x: 655, y: 0 }))
        } else {
            pa
        };
        let pb1 = if degenerate && dyn_b {
            v2_clamp(v2_add(pb, Vec2 { x: -655, y: 0 }))
        } else {
            pb
        };
        let axis = v2_sub(pa1, pb1);
        let d = v2_len_wide(axis);
        if d == 0 {
            PairResolution { overlap: true, pos_a: pa1, pos_b: pb1 }
        } else {
            proof {
                lemma_unit_dir_bounded(axis@);
            }
            let n = v2_fxdiv(axis, d);
            let delta = crate::fx::clamp64(min - d);
            if dyn_a && dyn_b {
                if ma + mb > 0 {
                    proof {
                        lemma_ratio_range(ma as int, mb as int);
                    }
                    let ratio = FX_ONE - fx_div(ma, ma + mb);
                    proof {
                        assert(0 <= ratio <= 0x1_0000);
                        assert(ratio as int * delta as int <= 0x4000_0000_0000_0000
                            && ratio as int * delta as int >= -0x4000_0000_0000_0000) by (
                        nonlinear_arith)
                            requires 0 <= ratio as int <= 0x1_0000 && -(FX_LIM as int) <= delta as int <= FX_LIM as int;
                        assert((0x1_0000 - ratio as int) * delta as int <= 0x4000_0000_0000_0000
                            && (0x1_0000 - ratio as int) * delta as int
                            >= -0x4000_0000_0000_0000) by (nonlinear_arith)
                            requires 0 <= ratio as int <= 0x1_0000 && -(FX_LIM as int) <= delta as int <= FX_LIM as int;
                    }
                    let ka = fx_mul_c(ratio, delta);
                    let kb = fx_mul_c(FX_ONE - ratio, delta);
                    proof {
                        lemma_mul_mag(ka as int, n@.x, FX_LIM as int);
                        lemma_mul_mag(ka as int, n@.y, FX_LIM as int);
                        lemma_mul_mag(kb as int, n@.x, FX_LIM as int);
                        lemma_mul_mag(kb as int, n@.y, FX_LIM as int);
                    }
                    let mva = Vec2 { x: fx_mul_c(ka, n.x), y: fx_mul_c(ka, n.y) };
                    let mvb = Vec2 { x: fx_mul_c(kb, n.x), y: fx_mul_c(kb, n.y) };
                    let npa = v2_clamp(v2_add(pa1, mva));
                    let npb = v2_clamp(v2_sub(pb1, mvb));
                    PairResolution { overlap: true, pos_a: npa, pos_b: npb }
                } else {
                    PairResolution { overlap: true, pos_a: pa1, pos_b: pb1 }
                }
            } else if dyn_a {
                proof {
                    lemma_mul_mag(delta as int, n@.x, FX_LIM as int);
                    lemma_mul_mag(delta as int, n@.y, FX_LIM as int);
                }
                let mv = Vec2 { x: fx_mul_c(delta, n.x), y: fx_mul_c(delta, n.y) };
                let npa = v2_clamp(v2_add(pa1, mv));
                PairResolution { overlap: true, pos_a: npa, pos_b: pb1 }
            } else if dyn_b {
                proof {
                    lemma_mul_mag(delta as int, n@.x, FX_LIM as int);
                    lemma_mul_mag(delta as int, n@.y, FX_LIM as int);
                }
                let mv = Vec2 { x: fx_mul_c(delta, n.x), y: fx_mul_c(delta, n.y) };
                let npb = v2_clamp(v2_sub(pb1, mv));
                PairResolution { overlap: true, pos_a: pa1, pos_b: npb }
            } else {
                PairResolution { overlap: true, pos_a: pa1, pos_b: pb1 }
            }
        }
    }
}

/// A body after gravity lands on it: the acceleration accumulator grows
/// by the engine gravity scaled by the body's own gravity factor; a
/// static body is untouched.
pub open spec fn gravity_applied(b: RigidBody, g: V2i) -> RigidBody {
    if b.body_type == RigidBodyType::Static {
        b
    } else {
        RigidBody {
            acceleration: Vec2 {
                x: clamp_s(b.acceleration@.x + fx_mul_cs(g.x, b.gravity_mod as int)) as i64,
                y: clamp_s(b.acceleration@.y + fx_mul_cs(g.y, b.gravity_mod as int)) as i64,
            },
            ..b
        }
    }
}

/// One pass of gravity over a body store.
#[verifier::rlimit(100)]
fn gravity_pass(set: &mut RigidBodySet, g: Vec2)
    requires
        old(set).wf(),
        in_lim_v(g@),
    ensures
        final(set).wf(),
        final(set).arena.slot_count() == old(set).arena.slot_count(),
        forall|j: int|
            0 <= j < final(set).arena.slot_count() ==> #[trigger] final(set).arena.occ(j) == old(set).arena.occ(j),
        forall|j: int|
            0 <= j < final(set).arena.slot_count() ==> #[trigger] final(set).arena.gen_at(j)
                == old(set).arena.gen_at(j),
        forall|j: int|
            #[trigger] old(set).arena.occ(j) ==> final(set).arena.val_at(j) == gravity_applied(
                old(set).arena.val_at(j),
                g@,
            ),
{
    let ghost pre = *set;
    let n = set.arena.num_slots();
    let mut i: usize = 0;
    while i < n
        invariant
            in_lim_v(g@),
            n == set.arena.slot_count(),
            0 <= i <= n,
            set.wf(),
            set.arena.slot_count() == pre.arena.slot_count(),
            forall|j: int|
                0 <= j < n ==> #[trigger] set.arena.occ(j) == pre.arena.occ(j),
            forall|j: int|
                0 <= j < n ==> #[trigger] set.arena.gen_at(j) == pre.arena.gen_at(j),
            forall|j: int|
                #[trigger] pre.arena.occ(j) && j < i ==> set.arena.val_at(j) == gravity_applied(
                    pre.arena.val_at(j),
                    g@,
                ),
            forall|j: int|
                #[trigger] pre.arena.occ(j) && j >= i ==> set.arena.val_at(j) == pre.arena.val_at(
                    j,
                ),
        decreases n - i,
    {
        let ghost cur = *set;
        let state = match set.arena.get_slot(i) {
            Some(b) => Some((b.body_type, b.gravity_mod)),
            None => None,
        };
        match state {
            Some((bt, gmod)) => {
                if bt != RigidBodyType::Static {
                    proof {
                        lemma_mul_mag(g@.x, gmod as int, FX_LIM as int);
                        lemma_mul_mag(g@.y, gmod as int, FX_LIM as int);
                    }
                    let ga = Vec2 { x: fx_mul_c(g.x, gmod), y: fx_mul_c(g.y, gmod) };
                    let body = set.arena.borrow_slot_mut(i);
                    body.accelerate(ga);
                    proof {
                        assert(set.arena.val_at(i as int) == gravity_applied(
                            pre.arena.val_at(i as int),
                            g@,
                        ));
                        assert forall|j: int| 0 <= j < n && j != i implies #[trigger] set.arena.occ(
                            j,
                        ) == pre.arena.occ(j) by {
                            assert(cur.arena.occ(j) == pre.arena.occ(j));
                        }
                        assert forall|j: int| 0 <= j < n && j != i implies #[trigger] set
                            .arena.gen_at(j) == pre.arena.gen_at(j) by {
                            assert(set.arena.occ(j) == cur.arena.occ(j));
                            assert(cur.arena.occ(j) == pre.arena.occ(j));
                            assert(cur.arena.gen_at(j) == pre.arena.gen_at(j));
                        }
                        assert forall|j: int|
                            #[trigger] pre.arena.occ(j) && 0 <= j < n && j != i implies set
                            .arena.val_at(j) == cur.arena.val_at(j) by {
                            assert(set.arena.occ(j) == cur.arena.occ(j));
                            assert(cur.arena.occ(j) == pre.arena.occ(j));
                            assert(cur.arena.occ(j));
                        }
                    }
                }
            },
            None => {},
        }
        i = i + 1;
    }
}

impl Physics {
    /// Add gravity, scaled per body, to every non-static body's
    /// acceleration accumulator.
    pub fn apply_gravity(&mut self)
        requires
            old(self).wf(),
        ensures
            final(self).wf(),
            *final(self) == (Physics { rbd_set: final(self).rbd_set, ..*old(self) }),
            final(self).rbd_set.arena.slot_count() == old(self).rbd_set.arena.slot_count(),
            forall|j: int|
                0 <= j < final(self).rbd_set.arena.slot_count() ==> #[trigger] final(self).rbd_set.arena.occ(j) == old(self).rbd_set.arena.occ(j),
            forall|j: int|
                0 <= j < final(self).rbd_set.arena.slot_count() ==> #[trigger] final(self).rbd_set.arena.gen_at(j) == old(self).rbd_set.arena.gen_at(j),
            forall|j: int|
                #[trigger] old(self).rbd_set.arena.occ(j) ==> final(self).rbd_set.arena.val_at(j)
                    == gravity_applied(old(self).rbd_set.arena.val_at(j), old(self).gravity@),
            forall|h2: Index|
                final(self).rbd_set.arena.valid(h2) <==> old(self).rbd_set.arena.valid(h2),
    {
        let ghost pre = *self;
        let g = self.gravity;
        gravity_pass(&mut self.rbd_set, g);
        proof {
            self.lemma_wf_after_body_pass(pre);
        }
    }

    /// The engine invariant survives any pass that touches only the
    /// bodies' values, leaving slots and generations alone.
    proof fn lemma_wf_after_body_pass(self, pre: Physics)
        requires
            pre.wf(),
            self.rbd_set.wf(),
            self.gravity == pre.gravity,
            self.substeps == pre.substeps,
            self.col_set == pre.col_set,
            self.joints == pre.joints,
            self.springs == pre.springs,
            self.constraints == pre.constraints,
            self.spatial_hash == pre.spatial_hash,
            self.accumulator == pre.accumulator,
            self.time == pre.time,
            self.rbd_set.arena.slot_count() == pre.rbd_set.arena.slot_count(),
            forall|j: int|
                0 <= j < self.rbd_set.arena.slot_count() ==> #[trigger] self.rbd_set.arena.occ(j)
                    == pre.rbd_set.arena.occ(j),
            forall|j: int|
                0 <= j < self.rbd_set.arena.slot_count() ==> #[trigger] self.rbd_set.arena.gen_at(
                    j,
                ) == pre.rbd_set.arena.gen_at(j),
        ensures
            self.wf(),
    {
        assert forall|i: int|
            #[trigger] self.rbd_set.arena.occ(i) implies self.spatial_hash.points_s().contains_key(
            slot_bits(self.rbd_set, i) as u64,
        ) by {
            assert(pre.rbd_set.arena.occ(i));
            assert(slot_bits(self.rbd_set, i) == slot_bits(pre.rbd_set, i));
        }
        assert forall|id: u64|
            #[trigger] self.spatial_hash.points_s().contains_key(id) implies {
            &&& self.rbd_set.arena.occ((id as int) % 0x1_0000_0000)
            &&& self.rbd_set.arena.gen_at((id as int) % 0x1_0000_0000) == (id as int)
                / 0x1_0000_0000
        } by {
            assert(pre.rbd_set.arena.occ((id as int) % 0x1_0000_0000));
        }
    }
}

/// `b` differs from `b0` at most in its acceleration accumulator.
pub open spec fn same_but_accel(b: RigidBody, b0: RigidBody) -> bool {
    b == (RigidBody { acceleration: b.acceleration, ..b0 })
}

/// `b` differs from `b0` at most in its position.
pub open spec fn same_but_position(b: RigidBody, b0: RigidBody) -> bool {
    b == (RigidBody { position: b.position, ..b0 })
}

/// `b` differs from `b0` at most in its position and rotation.
pub open spec fn same_but_pose(b: RigidBody, b0: RigidBody) -> bool {
    b == (RigidBody { position: b.position, rotation: b.rotation, ..b0 })
}

/// One pass of every spring's force over a body store.
#[verifier::rlimit(100)]
fn springs_pass(springs: &Arena<Spring>, set: &mut RigidBodySet)
    requires
        old(set).wf(),
        springs.wf(),
        forall|i: int| #[trigger] springs.occ(i) ==> spring_wf(springs.val_at(i)),
    ensures
        final(set).wf(),
        final(set).arena.slot_count() == old(set).arena.slot_count(),
        forall|j: int|
            0 <= j < final(set).arena.slot_count() ==> #[trigger] final(set).arena.occ(j) == old(set).arena.occ(j),
        forall|j: int|
            0 <= j < final(set).arena.slot_count() ==> #[trigger] final(set).arena.gen_at(j)
                == old(set).arena.gen_at(j),
        forall|j: int|
            #[trigger] old(set).arena.occ(j) ==> same_but_accel(
                final(set).arena.val_at(j),
                old(set).arena.val_at(j),
            ),
        bodies_view(*final(set)) == crate::springs::springs_fold_s(
            *springs,
            *old(set),
            bodies_view(*old(set)),
            springs.slot_count(),
        ),
{
    let ghost pre = *set;
    let n = springs.num_slots();
    let mut i: usize = 0;
    while i < n
        invariant
            springs.wf(),
            forall|k: int| #[trigger] springs.occ(k) ==> spring_wf(springs.val_at(k)),
            n == springs.slot_count(),
            0 <= i <= n,
            set.wf(),
            set.arena.slot_count() == pre.arena.slot_count(),
            forall|j: int|
                0 <= j < set.arena.slot_count() ==> #[trigger] set.arena.occ(j) == pre.arena.occ(
                    j,
                ),
            forall|j: int|
                0 <= j < set.arena.slot_count() ==> #[trigger] set.arena.gen_at(j)
                    == pre.arena.gen_at(j),
            forall|j: int|
                #[trigger] pre.arena.occ(j) ==> same_but_accel(
                    set.arena.val_at(j),
                    pre.arena.val_at(j),
                ),
            bodies_view(*set) == crate::springs::springs_fold_s(
                *springs,
                pre,
                bodies_view(pre),
                i as int,
            ),
        decreases n - i,
    {
        let ghost cur = *set;
        let spring = match springs.get_slot(i) {
            Some(s) => Some(*s),
            None => None,
        };
        match spring {
            Some(s) => {
                proof {
                    assert(s == springs.val_at(i as int));
                }
                s.apply_force(set);
                proof {
                    assert forall|h: Index| cur.arena.valid(h) <==> pre.arena.valid(h) by {
                        if 0 <= h.slot < cur.arena.slot_count() {
                            assert(cur.arena.occ(h.slot as int) == pre.arena.occ(
                                h.slot as int,
                            ));
                            assert(cur.arena.gen_at(h.slot as int) == pre.arena.gen_at(
                                h.slot as int,
                            ));
                        }
                    }
                    crate::springs::lemma_spring_apply_agree(s, cur, pre, bodies_view(cur));
                    assert(bodies_view(*set) == crate::springs::spring_apply_s(
                        s,
                        pre,
                        bodies_view(cur),
                    ));
                }
                proof {
                    assert forall|j: int|
                        0 <= j < set.arena.slot_count() implies #[trigger] set.arena.occ(j)
                        == pre.arena.occ(j) by {
                        assert(set.arena.occ(j) == cur.arena.occ(j));
                        assert(cur.arena.occ(j) == pre.arena.occ(j));
                    }
                    assert forall|j: int|
                        0 <= j < set.arena.slot_count() implies #[trigger] set.arena.gen_at(j)
                        == pre.arena.gen_at(j) by {
                        assert(set.arena.occ(j) == cur.arena.occ(j));
                        assert(set.arena.gen_at(j) == cur.arena.gen_at(j));
                        assert(cur.arena.gen_at(j) == pre.arena.gen_at(j));
                    }
                    assert forall|j: int| #[trigger] pre.arena.occ(j) implies same_but_accel(
                        set.arena.val_at(j),
                        pre.arena.val_at(j),
                    ) by {
                        assert(cur.arena.occ(j));
                        assert(set.arena.occ(j));
                        assert(same_but_accel(set.arena.val_at(j), cur.arena.val_at(j)));
                        assert(same_but_accel(cur.arena.val_at(j), pre.arena.val_at(j)));
                    }
                }
            },
            None => {},
        }
        i = i + 1;
    }
}

/// Move one dynamic body by a bounded offset, saturated at the world
/// bound.
fn shift_body(set: &mut RigidBodySet, h: RigidBodyHandle, d: Vec2)
    requires
        old(set).wf(),
        old(set).arena.valid(h.0),
        in_lim_v(d@),
    ensures
        final(set).wf(),
        final(set).arena.slot_count() == old(set).arena.slot_count(),
        forall|j: int|
            0 <= j < final(set).arena.slot_count() ==> #[trigger] final(set).arena.occ(j) == old(set).arena.occ(j),
        forall|j: int|
            0 <= j < final(set).arena.slot_count() ==> #[trigger] final(set).arena.gen_at(j)
                == old(set).arena.gen_at(j),
        forall|j: int|
            #[trigger] old(set).arena.occ(j) && j != h.0.slot ==> final(set).arena.val_at(j)
                == old(set).arena.val_at(j),
        final(set).arena.at(h.0) == (RigidBody {
            position: Vec2 {
                x: clamp_s(old(set).arena.at(h.0).position@.x + d@.x) as i64,
                y: clamp_s(old(set).arena.at(h.0).position@.y + d@.y) as i64,
            },
            ..old(set).arena.at(h.0)
        }),
{
    let ghost pre = *set;
    let body = set.arena.borrow_mut(h.0);
    let p = v2_clamp(v2_add(body.position, d));
    body.position = p;
    proof {
        assert forall|j: int|
            #[trigger] pre.arena.occ(j) && j != h.0.slot implies set.arena.val_at(j)
            == pre.arena.val_at(j) by {
            assert(set.arena.occ(j) == pre.arena.occ(j));
        }
        assert forall|j: int|
            0 <= j < set.arena.slot_count() implies #[trigger] set.arena.gen_at(j)
            == pre.arena.gen_at(j) by {
            assert(set.arena.occ(j) == pre.arena.occ(j));
        }
    }
}

/// Resolve every unordered pair of colliders by brute force: group
/// filter, circle-circle test, then mass-ratio separation on the parent
/// bodies.  Bodies that are not dynamic never move; a collision event is
/// pushed for every overlapping pair, sensors included.
#[verifier::rlimit(100)]
fn brute_pass(cols: &ColliderSet, set: &mut RigidBodySet, events: &mut Vec<CollisionEvent>)
    requires
        old(set).wf(),
        cols.wf(),
    ensures
        final(set).wf(),
        final(set).arena.slot_count() == old(set).arena.slot_count(),
        forall|j: int|
            0 <= j < final(set).arena.slot_count() ==> #[trigger] final(set).arena.occ(j) == old(set).arena.occ(j),
        forall|j: int|
            0 <= j < final(set).arena.slot_count() ==> #[trigger] final(set).arena.gen_at(j)
                == old(set).arena.gen_at(j),
        forall|j: int|
            #[trigger] old(set).arena.occ(j) ==> same_but_position(
                final(set).arena.val_at(j),
                old(set).arena.val_at(j),
            ),
        forall|j: int|
            #[trigger] old(set).arena.occ(j) && old(set).arena.val_at(j).body_type
                != RigidBodyType::Dynamic ==> final(set).arena.val_at(j).position == old(set).arena.val_at(j).position,
        final(events)@.len() >= old(events)@.len(),
        final(events)@.subrange(0, old(events)@.len() as int) == old(events)@,
        (PassState { bodies: bodies_view(*final(set)), events: final(events)@ })
            == brute_fold_s(
            *cols,
            *old(set),
            PassState { bodies: bodies_view(*old(set)), events: old(events)@ },
            cols.arena.slot_count(),
        ),
{
    let ghost pre = *set;
    let ghost pre_events = events@;
    let ghost st0 = PassState { bodies: bodies_view(pre), events: pre_events };
    let n = cols.arena.num_slots();
    let mut i: usize = 0;
    while i < n
        invariant
            cols.wf(),
            n == cols.arena.slot_count(),
            0 <= i <= n,
            set.wf(),
            set.arena.slot_count() == pre.arena.slot_count(),
            st0 == (PassState { bodies: bodies_view(pre), events: pre_events }),
            forall|j: int|
                0 <= j < set.arena.slot_count() ==> #[trigger] set.arena.occ(j) == pre.arena.occ(
                    j,
                ),
            forall|j: int|
                0 <= j < set.arena.slot_count() ==> #[trigger] set.arena.gen_at(j)
                    == pre.arena.gen_at(j),
            forall|j: int|
                #[trigger] pre.arena.occ(j) ==> same_but_position(
                    set.arena.val_at(j),
                    pre.arena.val_at(j),
                ),
            forall|j: int|
                #[trigger] pre.arena.occ(j) && pre.arena.val_at(j).body_type
                    != RigidBodyType::Dynamic ==> set.arena.val_at(j).position
                    == pre.arena.val_at(j).position,
            events@.len() >= pre_events.len(),
            events@.subrange(0, pre_events.len() as int) == pre_events,
            (PassState { bodies: bodies_view(*set), events: events@ }) == brute_fold_s(
                *cols,
                pre,
                st0,
                i as int,
            ),
        decreases n - i,
    {
        let mut j: usize = 0;
        while j < i
            invariant
                cols.wf(),
                n == cols.arena.slot_count(),
                0 <= j <= i < n,
                set.wf(),
                set.arena.slot_count() == pre.arena.slot_count(),
                st0 == (PassState { bodies: bodies_view(pre), events: pre_events }),
                forall|k: int|
                    0 <= k < set.arena.slot_count() ==> #[trigger] set.arena.occ(k)
                        == pre.arena.occ(k),
                forall|k: int|
                    0 <= k < set.arena.slot_count() ==> #[trigger] set.arena.gen_at(k)
                        == pre.arena.gen_at(k),
                forall|k: int|
                    #[trigger] pre.arena.occ(k) ==> same_but_position(
                        set.arena.val_at(k),
                        pre.arena.val_at(k),
                    ),
                forall|k: int|
                    #[trigger] pre.arena.occ(k) && pre.arena.val_at(k).body_type
                        != RigidBodyType::Dynamic ==> set.arena.val_at(k).position
                        == pre.arena.val_at(k).position,
                events@.len() >= pre_events.len(),
                events@.subrange(0, pre_events.len() as int) == pre_events,
                (PassState { bodies: bodies_view(*set), events: events@ }) == brute_inner_s(
                    *cols,
                    pre,
                    brute_fold_s(*cols, pre, st0, i as int),
                    i as int,
                    j as int,
                ),
            decreases i - j,
        {
            let ghost cur = *set;
            let ghost cur_events = events@;
            collide_slots(cols, set, events, i, j);
            proof {
                assert forall|k: int|
                    0 <= k < set.arena.slot_count() implies #[trigger] set.arena.occ(k)
                    == pre.arena.occ(k) by {
                    assert(set.arena.occ(k) == cur.arena.occ(k));
                    assert(cur.arena.occ(k) == pre.arena.occ(k));
                }
                assert forall|k: int|
                    0 <= k < set.arena.slot_count() implies #[trigger] set.arena.gen_at(k)
                    == pre.arena.gen_at(k) by {
                    assert(set.arena.occ(k) == cur.arena.occ(k));
                    assert(set.arena.gen_at(k) == cur.arena.gen_at(k));
                    assert(cur.arena.gen_at(k) == pre.arena.gen_at(k));
                }
                assert forall|k: int| #[trigger] pre.arena.occ(k) implies same_but_position(
                    set.arena.val_at(k),
                    pre.arena.val_at(k),
                ) by {
                    assert(cur.arena.occ(k));
                    assert(same_but_position(set.arena.val_at(k), cur.arena.val_at(k)));
                    assert(same_but_position(cur.arena.val_at(k), pre.arena.val_at(k)));
                }
                assert forall|k: int|
                    #[trigger] pre.arena.occ(k) && pre.arena.val_at(k).body_type
                        != RigidBodyType::Dynamic implies set.arena.val_at(k).position
                    == pre.arena.val_at(k).position by {
                    assert(cur.arena.occ(k));
                    assert(same_but_position(cur.arena.val_at(k), pre.arena.val_at(k)));
                    assert(cur.arena.val_at(k).body_type == pre.arena.val_at(k).body_type);
                    assert(set.arena.val_at(k).position == cur.arena.val_at(k).position);
                    assert(cur.arena.val_at(k).position == pre.arena.val_at(k).position);
                }
                assert(events@.subrange(0, cur_events.len() as int) == cur_events);
                assert(events@.subrange(0, pre_events.len() as int) =~= pre_events);
                assert forall|h: Index| cur.arena.valid(h) <==> pre.arena.valid(h) by {
                    if 0 <= h.slot < cur.arena.slot_count() {
                        assert(cur.arena.occ(h.slot as int) == pre.arena.occ(h.slot as int));
                        assert(cur.arena.gen_at(h.slot as int) == pre.arena.gen_at(
                            h.slot as int,
                        ));
                    }
                }
                lemma_collide_step_agree(
                    *cols,
                    cur,
                    pre,
                    PassState { bodies: bodies_view(cur), events: cur_events },
                    i as int,
                    j as int,
                );
                assert((PassState { bodies: bodies_view(*set), events: events@ })
                    == collide_step_s(
                    *cols,
                    pre,
                    PassState { bodies: bodies_view(cur), events: cur_events },
                    i as int,
                    j as int,
                ));
            }
            j = j + 1;
        }
        proof {
            assert((PassState { bodies: bodies_view(*set), events: events@ }) == brute_fold_s(
                *cols,
                pre,
                st0,
                i as int + 1,
            ));
        }
        i = i + 1;
    }
}

/// A body store's values as a slot-indexed sequence: the shape the
/// pass folds below are stated over.  Occupancy and generations never
/// change during a pass, so the values are the whole evolving state.
pub open spec fn bodies_view(set: RigidBodySet) -> Seq<Option<RigidBody>> {
    Seq::new(
        set.arena.slot_count() as nat,
        |i: int|
            if set.arena.occ(i) {
                Some(set.arena.val_at(i))
            } else {
                None
            },
    )
}

/// A resolution pass's evolving state: body values by slot, plus the
/// event queue.
pub struct PassState {
    pub bodies: Seq<Option<RigidBody>>,
    pub events: Seq<CollisionEvent>,
}

/// One collision test of the collider pair in slots `(i, j)`, as a
/// state transformer: the complete semantics of `collide_slots`.
/// Handle validity is judged against `set0`, the store at the start of
/// the pass; a pass never changes occupancy or generations, so the
/// judgement is the same at every step.
pub open spec fn collide_step_s(
    cols: ColliderSet,
    set0: RigidBodySet,
    st: PassState,
    i: int,
    j: int,
) -> PassState {
    if !(cols.arena.occ(i) && cols.arena.occ(j) && pair_applies(cols, set0, i, j)) {
        st
    } else {
        let ca = cols.arena.val_at(i);
        let cb = cols.arena.val_at(j);
        let pa_h = ca.parent->0;
        let pb_h = cb.parent->0;
        let a0 = st.bodies[pa_h.0.slot as int]->0;
        let b0 = st.bodies[pb_h.0.slot as int]->0;
        let pos_a = v_clamp(v_add(a0.position@, ca.offset@));
        let pos_b = v_clamp(v_add(b0.position@, cb.offset@));
        let dyn_a = a0.body_type == RigidBodyType::Dynamic;
        let dyn_b = b0.body_type == RigidBodyType::Dynamic;
        let res = resolve_pair_s(
            pos_a,
            pos_b,
            ca.radius as int,
            cb.radius as int,
            a0.calculated_mass as int,
            b0.calculated_mass as int,
            dyn_a,
            dyn_b,
        );
        if !res.0 {
            st
        } else {
            let ev = CollisionEvent {
                col_handle_a: ColliderHandle(
                    Index { slot: i as u32, generation: cols.arena.gen_at(i) as u32 },
                ),
                col_handle_b: ColliderHandle(
                    Index { slot: j as u32, generation: cols.arena.gen_at(j) as u32 },
                ),
            };
            let events1 = st.events.push(ev);
            if ca.flags.is_sensor || cb.flags.is_sensor {
                PassState { bodies: st.bodies, events: events1 }
            } else {
                let na = RigidBody {
                    position: Vec2 {
                        x: clamp_s(a0.position@.x + clamp_s(res.1.x - pos_a.x)) as i64,
                        y: clamp_s(a0.position@.y + clamp_s(res.1.y - pos_a.y)) as i64,
                    },
                    ..a0
                };
                let nb = RigidBody {
                    position: Vec2 {
                        x: clamp_s(b0.position@.x + clamp_s(res.2.x - pos_b.x)) as i64,
                        y: clamp_s(b0.position@.y + clamp_s(res.2.y - pos_b.y)) as i64,
                    },
                    ..b0
                };
                let bodies1 = if dyn_a {
                    st.bodies.update(pa_h.0.slot as int, Some(na))
                } else {
                    st.bodies
                };
                let bodies2 = if dyn_b {
                    bodies1.update(pb_h.0.slot as int, Some(nb))
                } else {
                    bodies1
                };
                PassState { bodies: bodies2, events: events1 }
            }
        }
    }
}

/// The step reads `set0` only through handle validity, so any store
/// with the same live handles gives the same step.
pub proof fn lemma_collide_step_agree(
    cols: ColliderSet,
    s1: RigidBodySet,
    s2: RigidBodySet,
    st: PassState,
    i: int,
    j: int,
)
    requires
        forall|h: Index| s1.arena.valid(h) <==> s2.arena.valid(h),
    ensures
        collide_step_s(cols, s1, st, i, j) == collide_step_s(cols, s2, st, i, j),
{
}

/// The brute-force pass folded over the pairs `(i, 0..i)` of one outer
/// index.
pub open spec fn brute_inner_s(
    cols: ColliderSet,
    set0: RigidBodySet,
    st: PassState,
    i: int,
    j: int,
) -> PassState
    decreases j,
{
    if j <= 0 {
        st
    } else {
        collide_step_s(cols, set0, brute_inner_s(cols, set0, st, i, j - 1), i, j - 1)
    }
}

/// The whole brute-force pass: every unordered collider pair once, in
/// ascending slot order.
pub open spec fn brute_fold_s(
    cols: ColliderSet,
    set0: RigidBodySet,
    st: PassState,
    i: int,
) -> PassState
    decreases i,
{
    if i <= 0 {
        st
    } else {
        brute_inner_s(cols, set0, brute_fold_s(cols, set0, st, i - 1), i - 1, i - 1)
    }
}

/// A pass folded over an explicit sequence of slot pairs (the shape of
/// the spatial pass, whose candidate order comes from the broad-phase
/// query).
pub open spec fn pairs_fold_s(
    cols: ColliderSet,
    set0: RigidBodySet,
    st: PassState,
    ps: Seq<(int, int)>,
    k: int,
) -> PassState
    decreases k,
{
    if k <= 0 {
        st
    } else {
        collide_step_s(
            cols,
            set0,
            pairs_fold_s(cols, set0, st, ps, k - 1),
            ps[k - 1].0,
            ps[k - 1].1,
        )
    }
}

/// Folding the same prefix of two pair sequences gives the same state.
pub proof fn lemma_pairs_fold_prefix(
    cols: ColliderSet,
    set0: RigidBodySet,
    st: PassState,
    ps1: Seq<(int, int)>,
    ps2: Seq<(int, int)>,
    k: int,
)
    requires
        forall|q: int| 0 <= q < k ==> ps1[q] == ps2[q],
    ensures
        pairs_fold_s(cols, set0, st, ps1, k) == pairs_fold_s(cols, set0, st, ps2, k),
    decreases k,
{
    if k > 0 {
        lemma_pairs_fold_prefix(cols, set0, st, ps1, ps2, k - 1);
    }
}

/// Folding a concatenation is folding the first part, then the second.
pub proof fn lemma_pairs_fold_concat(
    cols: ColliderSet,
    set0: RigidBodySet,
    st: PassState,
    ps: Seq<(int, int)>,
    qs: Seq<(int, int)>,
    k: int,
)
    requires
        0 <= k <= qs.len(),
    ensures
        pairs_fold_s(cols, set0, st, ps + qs, ps.len() + k) == pairs_fold_s(
            cols,
            set0,
            pairs_fold_s(cols, set0, st, ps, ps.len() as int),
            qs,
            k,
        ),
    decreases k,
{
    if k == 0 {
        lemma_pairs_fold_prefix(cols, set0, st, ps + qs, ps, ps.len() as int);
    } else {
        lemma_pairs_fold_concat(cols, set0, st, ps, qs, k - 1);
        assert((ps + qs)[ps.len() + k - 1] == qs[k - 1]);
    }
}

/// A pair fold reads the body store only through handle validity.
pub proof fn lemma_pairs_fold_agree(
    cols: ColliderSet,
    s1: RigidBodySet,
    s2: RigidBodySet,
    st: PassState,
    ps: Seq<(int, int)>,
    k: int,
)
    requires
        forall|h: Index| s1.arena.valid(h) <==> s2.arena.valid(h),
    ensures
        pairs_fold_s(cols, s1, st, ps, k) == pairs_fold_s(cols, s2, st, ps, k),
    decreases k,
{
    if k > 0 {
        lemma_pairs_fold_agree(cols, s1, s2, st, ps, k - 1);
        lemma_collide_step_agree(
            cols,
            s1,
            s2,
            pairs_fold_s(cols, s1, st, ps, k - 1),
            ps[k - 1].0,
            ps[k - 1].1,
        );
    }
}

/// The pair in collider slots `i` and `j` passes every filter of a
/// resolution pass: both have parents, the parents are distinct live
/// bodies, and the group filters allow the interaction.
pub open spec fn pair_applies(cols: ColliderSet, set: RigidBodySet, i: int, j: int) -> bool {
    let ca = cols.arena.val_at(i);
    let cb = cols.arena.val_at(j);
    &&& ca.parent is Some
    &&& cb.parent is Some
    &&& ({
        let pa_h = ca.parent->0;
        let pb_h = cb.parent->0;
        &&& pa_h.0 != pb_h.0
        &&& pa_h.0.slot != pb_h.0.slot
        &&& set.arena.valid(pa_h.0)
        &&& set.arena.valid(pb_h.0)
    })
    &&& crate::groups::groups_allow(ca.collision_groups, cb.collision_groups)
}

/// Test and, when overlapping, resolve the collider pair in slots
/// `i` and `j`; a contact event is pushed for every overlap.  The
/// whole effect equals one `collide_step_s`.
#[verifier::rlimit(100)]
fn collide_slots(
    cols: &ColliderSet,
    set: &mut RigidBodySet,
    events: &mut Vec<CollisionEvent>,
    i: usize,
    j: usize,
)
    requires
        old(set).wf(),
        cols.wf(),
        i < cols.arena.slot_count(),
        j < cols.arena.slot_count(),
    ensures
        final(set).wf(),
        final(set).arena.slot_count() == old(set).arena.slot_count(),
        forall|k: int|
            0 <= k < final(set).arena.slot_count() ==> #[trigger] final(set).arena.occ(k) == old(set).arena.occ(k),
        forall|k: int|
            0 <= k < final(set).arena.slot_count() ==> #[trigger] final(set).arena.gen_at(k)
                == old(set).arena.gen_at(k),
        forall|k: int|
            #[trigger] old(set).arena.occ(k) ==> same_but_position(
                final(set).arena.val_at(k),
                old(set).arena.val_at(k),
            ),
        forall|k: int|
            #[trigger] old(set).arena.occ(k) && old(set).arena.val_at(k).body_type
                != RigidBodyType::Dynamic ==> final(set).arena.val_at(k).position == old(set).arena.val_at(k).position,
        final(events)@.len() >= old(events)@.len(),
        final(events)@.subrange(0, old(events)@.len() as int) == old(events)@,
        (PassState { bodies: bodies_view(*final(set)), events: final(events)@ })
            == collide_step_s(
            *cols,
            *old(set),
            PassState { bodies: bodies_view(*old(set)), events: old(events)@ },
            i as int,
            j as int,
        ),
{
    let ghost pre = *set;
    let ghost pre_events = events@;
    let ghost st0 = PassState { bodies: bodies_view(pre), events: pre_events };
    let ca = match cols.arena.get_slot(i) {
        Some(c) => Some(*c),
        None => None,
    };
    let cb = match cols.arena.get_slot(j) {
        Some(c) => Some(*c),
        None => None,
    };
    match (ca, cb) {
        (Some(ca), Some(cb)) => {
            proof {
                assert(ca == cols.arena.val_at(i as int));
                assert(cb == cols.arena.val_at(j as int));
            }
            match (ca.parent, cb.parent) {
                (Some(pa_h), Some(pb_h)) => {
                    if pa_h.0 != pb_h.0 && pa_h.0.slot != pb_h.0.slot && ca.collision_groups.test(
                        cb.collision_groups,
                    ) {
                        let a_state = match set.get(pa_h) {
                            Some(b) => Some((b.position, b.calculated_mass, b.body_type)),
                            None => None,
                        };
                        let b_state = match set.get(pb_h) {
                            Some(b) => Some((b.position, b.calculated_mass, b.body_type)),
                            None => None,
                        };
                        match (a_state, b_state) {
                            (Some((apos, am, at)), Some((bpos, bm, bt))) => {
                                proof {
                                    assert(pair_applies(*cols, pre, i as int, j as int));
                                    assert(st0.bodies[pa_h.0.slot as int] == Some(
                                        pre.arena.at(pa_h.0),
                                    ));
                                    assert(st0.bodies[pb_h.0.slot as int] == Some(
                                        pre.arena.at(pb_h.0),
                                    ));
                                }
                                let pos_a = v2_clamp(v2_add(apos, ca.offset));
                                let pos_b = v2_clamp(v2_add(bpos, cb.offset));
                                let dyn_a = at == RigidBodyType::Dynamic;
                                let dyn_b = bt == RigidBodyType::Dynamic;
                                let res = resolve_circle_pair(
                                    pos_a,
                                    pos_b,
                                    ca.radius,
                                    cb.radius,
                                    am,
                                    bm,
                                    dyn_a,
                                    dyn_b,
                                );
                                if res.overlap {
                                    if !ca.flags.is_sensor && !cb.flags.is_sensor {
                                        let da = v2_clamp(v2_sub(res.pos_a, pos_a));
                                        let db = v2_clamp(v2_sub(res.pos_b, pos_b));
                                        let ghost mid0 = *set;
                                        if dyn_a {
                                            shift_body(set, pa_h, da);
                                        }
                                        let ghost mid1 = *set;
                                        proof {
                                            assert(set.arena.occ(pb_h.0.slot as int)
                                                == pre.arena.occ(pb_h.0.slot as int));
                                            assert(set.arena.gen_at(pb_h.0.slot as int)
                                                == pre.arena.gen_at(pb_h.0.slot as int));
                                            assert(set.arena.valid(pb_h.0));
                                        }
                                        if dyn_b {
                                            shift_body(set, pb_h, db);
                                        }
                                        proof {
                                            assert forall|k: int|
                                                0 <= k < set.arena.slot_count() implies
                                                #[trigger] set.arena.occ(k) == pre.arena.occ(
                                                k,
                                            ) by {
                                                assert(set.arena.occ(k) == mid1.arena.occ(k));
                                                assert(mid1.arena.occ(k) == mid0.arena.occ(k));
                                            }
                                            assert forall|k: int|
                                                0 <= k < set.arena.slot_count() implies
                                                #[trigger] set.arena.gen_at(k)
                                                == pre.arena.gen_at(k) by {
                                                assert(set.arena.occ(k) == mid1.arena.occ(k));
                                                assert(set.arena.gen_at(k) == mid1.arena.gen_at(
                                                    k,
                                                ));
                                                assert(mid1.arena.occ(k) == mid0.arena.occ(k));
                                                assert(mid1.arena.gen_at(k) == mid0.arena.gen_at(
                                                    k,
                                                ));
                                            }
                                            assert forall|k: int|
                                                #[trigger] pre.arena.occ(k) implies
                                                same_but_position(
                                                set.arena.val_at(k),
                                                pre.arena.val_at(k),
                                            ) by {
                                                assert(mid0.arena.occ(k));
                                                assert(mid1.arena.occ(k));
                                                assert(set.arena.occ(k));
                                                assert(same_but_position(
                                                    mid1.arena.val_at(k),
                                                    mid0.arena.val_at(k),
                                                ));
                                                assert(same_but_position(
                                                    set.arena.val_at(k),
                                                    mid1.arena.val_at(k),
                                                ));
                                            }
                                            assert forall|k: int|
                                                #[trigger] pre.arena.occ(k) && pre.arena.val_at(
                                                    k,
                                                ).body_type != RigidBodyType::Dynamic implies set
                                                .arena.val_at(k).position == pre.arena.val_at(
                                                k,
                                            ).position by {
                                                assert(mid0.arena.occ(k));
                                                assert(mid1.arena.occ(k));
                                                if k == pa_h.0.slot {
                                                    assert(!dyn_a);
                                                }
                                                if k == pb_h.0.slot {
                                                    assert(!dyn_b);
                                                }
                                            }
                                            assert forall|k: int|
                                                #[trigger] pre.arena.occ(k) && k != pa_h.0.slot
                                                    && k != pb_h.0.slot implies set.arena.val_at(
                                                k,
                                            ) == pre.arena.val_at(k) by {
                                                assert(mid0.arena.occ(k) && mid1.arena.occ(k));
                                                assert(set.arena.occ(k));
                                                assert(mid1.arena.val_at(k) == mid0.arena.val_at(
                                                    k,
                                                ));
                                                assert(set.arena.val_at(k) == mid1.arena.val_at(
                                                    k,
                                                ));
                                            }
                                            if dyn_a {
                                                assert(set.arena.occ(pa_h.0.slot as int));
                                                assert(mid1.arena.at(pa_h.0) == (RigidBody {
                                                    position: Vec2 {
                                                        x: clamp_s(apos@.x + da@.x) as i64,
                                                        y: clamp_s(apos@.y + da@.y) as i64,
                                                    },
                                                    ..pre.arena.at(pa_h.0)
                                                }));
                                                assert(set.arena.val_at(pa_h.0.slot as int)
                                                    == mid1.arena.val_at(pa_h.0.slot as int));
                                            }
                                            if dyn_b {
                                                assert(set.arena.occ(pb_h.0.slot as int));
                                                assert(set.arena.at(pb_h.0) == (RigidBody {
                                                    position: Vec2 {
                                                        x: clamp_s(bpos@.x + db@.x) as i64,
                                                        y: clamp_s(bpos@.y + db@.y) as i64,
                                                    },
                                                    ..mid1.arena.at(pb_h.0)
                                                }));
                                                assert(mid1.arena.at(pb_h.0)
                                                    == pre.arena.at(pb_h.0));
                                            }
                                        }
                                    }
                                    let ha = ColliderHandle(cols.arena.handle_at(i));
                                    let hb = ColliderHandle(cols.arena.handle_at(j));
                                    events.push(
                                        CollisionEvent { col_handle_a: ha, col_handle_b: hb },
                                    );
                                    proof {
                                        assert(events@.subrange(0, pre_events.len() as int)
                                            =~= pre_events);
                                        let stp = collide_step_s(
                                            *cols,
                                            pre,
                                            st0,
                                            i as int,
                                            j as int,
                                        );
                                        assert(ha.0 == (Index {
                                            slot: i as u32,
                                            generation: cols.arena.gen_at(i as int) as u32,
                                        }));
                                        assert(hb.0 == (Index {
                                            slot: j as u32,
                                            generation: cols.arena.gen_at(j as int) as u32,
                                        }));
                                        assert(events@ =~= stp.events);
                                        assert(bodies_view(*set) =~= stp.bodies);
                                    }
                                }
                            },
                            _ => {
                                proof {
                                    assert(!pair_applies(*cols, pre, i as int, j as int));
                                }
                            },
                        }
                    } else {
                        proof {
                            assert(!pair_applies(*cols, pre, i as int, j as int));
                        }
                    }
                },
                _ => {
                    proof {
                        assert(!pair_applies(*cols, pre, i as int, j as int));
                    }
                },
            }
        },
        _ => {
            proof {
                assert(!(cols.arena.occ(i as int) && cols.arena.occ(j as int)));
            }
        },
    }
}

/// One joint solve's corrected poses for the pair.
#[derive(Clone, Copy, PartialEq, Eq, Structural, Debug)]
pub struct JointCorrection {
    pub pos_a: Vec2,
    pub pos_b: Vec2,
    pub rot_a: i64,
    pub rot_b: i64,
}

/// The fixed-point reciprocal of a positive mass, saturated.
pub open spec fn recip_s(m: int) -> int {
    clamp_s(fx_div_s(0x1_0000, m))
}

/// One Gauss-Seidel relaxation of a distance-and-angle joint, exact at
/// every arithmetic stage.  The positional correction
/// `(distance - rest) * direction` is split by inverse mass between two
/// dynamic bodies, lands in full (scaled by the combined inverse mass)
/// on the dynamic side of a mixed pair, and moves nothing that is not
/// dynamic; the rotation of both bodies is nudged toward the captured
/// relative angle, scaled by half the angle error and the timestep.
pub open spec fn solve_joint_s(
    pa: V2i,
    pb: V2i,
    anchor_a: V2i,
    anchor_b: V2i,
    rest: int,
    ma: int,
    mb: int,
    dyn_a: bool,
    dyn_b: bool,
    rot_a: int,
    rot_b: int,
    target: int,
    dt: int,
) -> (V2i, V2i, int, int) {
    let wa = v_clamp(v_add(pa, anchor_a));
    let wb = v_clamp(v_add(pb, anchor_b));
    let delta = v_sub(wb, wa);
    let d = v_len(delta);
    if d == 0 {
        (pa, pb, rot_a, rot_b)
    } else {
        let dir = v_fxdiv(delta, d);
        let off = clamp_s(d - rest);
        let corr = V2i { x: fx_mul_cs(off, dir.x), y: fx_mul_cs(off, dir.y) };
        let inv_sum = clamp_s(recip_s(ma) + recip_s(mb));
        let (npa, npb) = if dyn_a && dyn_b {
            let ratio = fx_div_s(recip_s(ma), inv_sum);
            let mva = V2i { x: fx_mul_cs(ratio, corr.x), y: fx_mul_cs(ratio, corr.y) };
            let mvb = V2i {
                x: fx_mul_cs(0x1_0000 - ratio, corr.x),
                y: fx_mul_cs(0x1_0000 - ratio, corr.y),
            };
            (v_clamp(v_add(pa, mva)), v_clamp(v_sub(pb, mvb)))
        } else if dyn_a {
            let mv = V2i { x: fx_mul_cs(inv_sum, corr.x), y: fx_mul_cs(inv_sum, corr.y) };
            (v_clamp(v_add(pa, mv)), pb)
        } else if dyn_b {
            let mv = V2i { x: fx_mul_cs(inv_sum, corr.x), y: fx_mul_cs(inv_sum, corr.y) };
            (pa, v_clamp(v_sub(pb, mv)))
        } else {
            (pa, pb)
        };
        let diff = clamp_s(clamp_s(rot_b - rot_a) - target);
        let rc = fx_mul_cs(fx_mul_cs(diff, 0x8000), dt);
        (npa, npb, clamp_s(rot_a + rc), clamp_s(rot_b - rc))
    }
}

/// Solve one joint pair, exact per `solve_joint_s`.
#[verifier::rlimit(100)]
pub fn solve_joint_pair(
    pa: Vec2,
    pb: Vec2,
    anchor_a: Vec2,
    anchor_b: Vec2,
    rest: i64,
    ma: i64,
    mb: i64,
    dyn_a: bool,
    dyn_b: bool,
    rot_a: i64,
    rot_b: i64,
    target: i64,
    dt: i64,
) -> (r: JointCorrection)
    requires
        in_lim_v(pa@),
        in_lim_v(pb@),
        in_lim_v(anchor_a@),
        in_lim_v(anchor_b@),
        0 <= rest <= FX_LIM,
        0 < ma <= FX_LIM,
        0 < mb <= FX_LIM,
        in_lim(rot_a as int),
        in_lim(rot_b as int),
        in_lim(target as int),
        1 <= dt <= FX_ONE,
    ensures
        (r.pos_a@, r.pos_b@, r.rot_a as int, r.rot_b as int) == solve_joint_s(
            pa@,
            pb@,
            anchor_a@,
            anchor_b@,
            rest as int,
            ma as int,
            mb as int,
            dyn_a,
            dyn_b,
            rot_a as int,
            rot_b as int,
            target as int,
            dt as int,
        ),
        in_lim_v(r.pos_a@),
        in_lim_v(r.pos_b@),
        in_lim(r.rot_a as int),
        in_lim(r.rot_b as int),
        !dyn_a ==> r.pos_a == pa,
        !dyn_b ==> r.pos_b == pb,
{
    let wa = v2_clamp(v2_add(pa, anchor_a));
    let wb = v2_clamp(v2_add(pb, anchor_b));
    let delta = v2_sub(wb, wa);
    let d = v2_len_wide(delta);
    if d == 0 {
        JointCorrection { pos_a: pa, pos_b: pb, rot_a, rot_b }
    } else {
        proof {
            lemma_unit_dir_bounded(delta@);
        }
        let dir = v2_fxdiv(delta, d);
        let off = crate::fx::clamp64(d - rest);
        proof {
            lemma_mul_mag(off as int, dir@.x, FX_LIM as int);
            lemma_mul_mag(off as int, dir@.y, FX_LIM as int);
        }
        let corr = Vec2 { x: fx_mul_c(off, dir.x), y: fx_mul_c(off, dir.y) };
        let ra = crate::fx::clamp64(fx_div(FX_ONE, ma));
        let rb = crate::fx::clamp64(fx_div(FX_ONE, mb));
        let inv_sum = crate::fx::add_clamped(ra, rb);
        proof {
            vstd::arithmetic::div_mod::lemma_div_is_ordered_by_denominator(
                0x1_0000_0000,
                ma as int,
                FX_LIM as int,
            );
            assert(0x1_0000_0000int / 0x8000_0000 == 2) by (nonlinear_arith);
            assert(ra >= 2);
            assert(inv_sum >= 2);
        }
        let cor = if dyn_a && dyn_b {
            proof {
                crate::fx::lemma_tdiv_bound(
                    ra as int * 0x1_0000,
                    inv_sum as int,
                    inv_sum as int * 0x1_0000,
                );
                assert(ra as int * 0x1_0000 <= inv_sum as int * 0x1_0000 && 0
                    <= ra as int * 0x1_0000) by (nonlinear_arith)
                    requires 0 <= ra as int <= inv_sum as int;
                vstd::arithmetic::div_mod::lemma_div_multiples_vanish(0x1_0000, inv_sum as int);
            }
            let ratio = fx_div(ra, inv_sum);
            proof {
                assert(0 <= ratio <= 0x1_0000);
                lemma_mul_mag(ratio as int, corr@.x, FX_LIM as int);
                lemma_mul_mag(ratio as int, corr@.y, FX_LIM as int);
                lemma_mul_mag(0x1_0000 - ratio as int, corr@.x, FX_LIM as int);
                lemma_mul_mag(0x1_0000 - ratio as int, corr@.y, FX_LIM as int);
            }
            let mva = Vec2 { x: fx_mul_c(ratio, corr.x), y: fx_mul_c(ratio, corr.y) };
            let mvb = Vec2 {
                x: fx_mul_c(FX_ONE - ratio, corr.x),
                y: fx_mul_c(FX_ONE - ratio, corr.y),
            };
            (v2_clamp(v2_add(pa, mva)), v2_clamp(v2_sub(pb, mvb)))
        } else if dyn_a {
            proof {
                lemma_mul_mag(inv_sum as int, corr@.x, FX_LIM as int);
                lemma_mul_mag(inv_sum as int, corr@.y, FX_LIM as int);
            }
            let mv = Vec2 { x: fx_mul_c(inv_sum, corr.x), y: fx_mul_c(inv_sum, corr.y) };
            (v2_clamp(v2_add(pa, mv)), pb)
        } else if dyn_b {
            proof {
                lemma_mul_mag(inv_sum as int, corr@.x, FX_LIM as int);
                lemma_mul_mag(inv_sum as int, corr@.y, FX_LIM as int);
            }
            let mv = Vec2 { x: fx_mul_c(inv_sum, corr.x), y: fx_mul_c(inv_sum, corr.y) };
            (pa, v2_clamp(v2_sub(pb, mv)))
        } else {
            (pa, pb)
        };
        let diff = crate::fx::clamp64(crate::fx::clamp64(rot_b - rot_a) - target);
        proof {
            lemma_mul_mag(diff as int, 0x8000, FX_LIM as int);
        }
        let h = fx_mul_c(diff, 0x8000);
        proof {
            lemma_mul_mag(h as int, dt as int, FX_LIM as int);
        }
        let rc = fx_mul_c(h, dt);
        let nra = crate::fx::add_clamped(rot_a, rc);
        let nrb = crate::fx::add_clamped(rot_b, -rc);
        JointCorrection { pos_a: cor.0, pos_b: cor.1, rot_a: nra, rot_b: nrb }
    }
}

/// One joint relaxation of the joint in slot `k`, as a state
/// transformer over the body values: the complete semantics of one
/// solver visit.  A vacant slot, a joint whose bodies share a slot or
/// are not both live, or a massless body leaves the state alone.
pub open spec fn joint_step_s(
    joints: Arena<FixedJoint>,
    set0: RigidBodySet,
    bodies: Seq<Option<RigidBody>>,
    k: int,
    dt: int,
) -> Seq<Option<RigidBody>> {
    if !joints.occ(k) {
        bodies
    } else {
        let jt = joints.val_at(k);
        if jt.rigid_body_a.0.slot == jt.rigid_body_b.0.slot {
            bodies
        } else if !(set0.arena.valid(jt.rigid_body_a.0) && set0.arena.valid(jt.rigid_body_b.0)) {
            bodies
        } else {
            let a0 = bodies[jt.rigid_body_a.0.slot as int]->0;
            let b0 = bodies[jt.rigid_body_b.0.slot as int]->0;
            if !(a0.calculated_mass > 0 && b0.calculated_mass > 0) {
                bodies
            } else {
                let r = solve_joint_s(
                    a0.position@,
                    b0.position@,
                    jt.anchor_a@,
                    jt.anchor_b@,
                    jt.distance as int,
                    a0.calculated_mass as int,
                    b0.calculated_mass as int,
                    a0.body_type == RigidBodyType::Dynamic,
                    b0.body_type == RigidBodyType::Dynamic,
                    a0.rotation as int,
                    b0.rotation as int,
                    jt.target_angle as int,
                    dt,
                );
                bodies.update(
                    jt.rigid_body_a.0.slot as int,
                    Some(
                        RigidBody {
                            position: Vec2 { x: r.0.x as i64, y: r.0.y as i64 },
                            rotation: r.2 as i64,
                            ..a0
                        },
                    ),
                ).update(
                    jt.rigid_body_b.0.slot as int,
                    Some(
                        RigidBody {
                            position: Vec2 { x: r.1.x as i64, y: r.1.y as i64 },
                            rotation: r.3 as i64,
                            ..b0
                        },
                    ),
                )
            }
        }
    }
}

/// The joint step reads `set0` only through handle validity.
pub proof fn lemma_joint_step_agree(
    joints: Arena<FixedJoint>,
    s1: RigidBodySet,
    s2: RigidBodySet,
    bodies: Seq<Option<RigidBody>>,
    k: int,
    dt: int,
)
    requires
        forall|h: Index| s1.arena.valid(h) <==> s2.arena.valid(h),
    ensures
        joint_step_s(joints, s1, bodies, k, dt) == joint_step_s(joints, s2, bodies, k, dt),
{
}

/// One solver iteration folded over the joint slots `0..k`.
pub open spec fn joints_inner_s(
    joints: Arena<FixedJoint>,
    set0: RigidBodySet,
    bodies: Seq<Option<RigidBody>>,
    k: int,
    dt: int,
) -> Seq<Option<RigidBody>>
    decreases k,
{
    if k <= 0 {
        bodies
    } else {
        joint_step_s(joints, set0, joints_inner_s(joints, set0, bodies, k - 1, dt), k - 1, dt)
    }
}

/// The whole joint pass: `iters` Gauss-Seidel iterations, each over
/// every joint slot in ascending order.
pub open spec fn joints_fold_s(
    joints: Arena<FixedJoint>,
    set0: RigidBodySet,
    bodies: Seq<Option<RigidBody>>,
    iters: int,
    dt: int,
) -> Seq<Option<RigidBody>>
    decreases iters,
{
    if iters <= 0 {
        bodies
    } else {
        joints_inner_s(
            joints,
            set0,
            joints_fold_s(joints, set0, bodies, iters - 1, dt),
            joints.slot_count(),
            dt,
        )
    }
}

/// The configured number of Gauss-Seidel iterations over every joint.
/// A joint whose bodies are missing, share a slot, or carry no mass is
/// skipped: the relation is treated as dissolved, never a fault.
#[verifier::rlimit(100)]
fn joints_pass(joints: &Arena<FixedJoint>, set: &mut RigidBodySet, iterations: u32, dt: i64)
    requires
        old(set).wf(),
        joints.wf(),
        forall|i: int| #[trigger] joints.occ(i) ==> joint_wf(joints.val_at(i)),
        1 <= dt <= FX_ONE,
    ensures
        final(set).wf(),
        final(set).arena.slot_count() == old(set).arena.slot_count(),
        forall|j: int|
            0 <= j < final(set).arena.slot_count() ==> #[trigger] final(set).arena.occ(j) == old(set).arena.occ(j),
        forall|j: int|
            0 <= j < final(set).arena.slot_count() ==> #[trigger] final(set).arena.gen_at(j)
                == old(set).arena.gen_at(j),
        forall|j: int|
            #[trigger] old(set).arena.occ(j) ==> same_but_pose(
                final(set).arena.val_at(j),
                old(set).arena.val_at(j),
            ),
        forall|j: int|
            #[trigger] old(set).arena.occ(j) && old(set).arena.val_at(j).body_type
                != RigidBodyType::Dynamic ==> final(set).arena.val_at(j).position == old(set).arena.val_at(j).position,
        bodies_view(*final(set)) == joints_fold_s(
            *joints,
            *old(set),
            bodies_view(*old(set)),
            iterations as int,
            dt as int,
        ),
{
    let ghost pre = *set;
    let mut it: u32 = 0;
    while it < iterations
        invariant
            it <= iterations,
            joints.wf(),
            forall|k: int| #[trigger] joints.occ(k) ==> joint_wf(joints.val_at(k)),
            1 <= dt <= FX_ONE,
            set.wf(),
            set.arena.slot_count() == pre.arena.slot_count(),
            forall|j: int|
                0 <= j < set.arena.slot_count() ==> #[trigger] set.arena.occ(j) == pre.arena.occ(
                    j,
                ),
            forall|j: int|
                0 <= j < set.arena.slot_count() ==> #[trigger] set.arena.gen_at(j)
                    == pre.arena.gen_at(j),
            forall|j: int|
                #[trigger] pre.arena.occ(j) ==> same_but_pose(
                    set.arena.val_at(j),
                    pre.arena.val_at(j),
                ),
            forall|j: int|
                #[trigger] pre.arena.occ(j) && pre.arena.val_at(j).body_type
                    != RigidBodyType::Dynamic ==> set.arena.val_at(j).position
                    == pre.arena.val_at(j).position,
            bodies_view(*set) == joints_fold_s(
                *joints,
                pre,
                bodies_view(pre),
                it as int,
                dt as int,
            ),
        decreases iterations - it,
    {
        let n = joints.num_slots();
        let mut k: usize = 0;
        while k < n
            invariant
                joints.wf(),
                forall|q: int| #[trigger] joints.occ(q) ==> joint_wf(joints.val_at(q)),
                1 <= dt <= FX_ONE,
                n == joints.slot_count(),
                0 <= k <= n,
                set.wf(),
                set.arena.slot_count() == pre.arena.slot_count(),
                forall|j: int|
                    0 <= j < set.arena.slot_count() ==> #[trigger] set.arena.occ(j)
                        == pre.arena.occ(j),
                forall|j: int|
                    0 <= j < set.arena.slot_count() ==> #[trigger] set.arena.gen_at(j)
                        == pre.arena.gen_at(j),
                forall|j: int|
                    #[trigger] pre.arena.occ(j) ==> same_but_pose(
                        set.arena.val_at(j),
                        pre.arena.val_at(j),
                    ),
                forall|j: int|
                    #[trigger] pre.arena.occ(j) && pre.arena.val_at(j).body_type
                        != RigidBodyType::Dynamic ==> set.arena.val_at(j).position
                        == pre.arena.val_at(j).position,
                bodies_view(*set) == joints_inner_s(
                    *joints,
                    pre,
                    joints_fold_s(*joints, pre, bodies_view(pre), it as int, dt as int),
                    k as int,
                    dt as int,
                ),
            decreases n - k,
        {
            let ghost cur = *set;
            solve_one_joint(joints, set, k, dt);
            proof {
                assert forall|j: int|
                    0 <= j < set.arena.slot_count() implies #[trigger] set.arena.occ(j)
                    == pre.arena.occ(j) by {
                    assert(set.arena.occ(j) == cur.arena.occ(j));
                    assert(cur.arena.occ(j) == pre.arena.occ(j));
                }
                assert forall|j: int|
                    0 <= j < set.arena.slot_count() implies #[trigger] set.arena.gen_at(j)
                    == pre.arena.gen_at(j) by {
                    assert(set.arena.gen_at(j) == cur.arena.gen_at(j));
                    assert(cur.arena.gen_at(j) == pre.arena.gen_at(j));
                }
                assert forall|j: int| #[trigger] pre.arena.occ(j) implies same_but_pose(
                    set.arena.val_at(j),
                    pre.arena.val_at(j),
                ) by {
                    assert(cur.arena.occ(j));
                    assert(same_but_pose(set.arena.val_at(j), cur.arena.val_at(j)));
                    assert(same_but_pose(cur.arena.val_at(j), pre.arena.val_at(j)));
                }
                assert forall|j: int|
                    #[trigger] pre.arena.occ(j) && pre.arena.val_at(j).body_type
                        != RigidBodyType::Dynamic implies set.arena.val_at(j).position
                    == pre.arena.val_at(j).position by {
                    assert(cur.arena.occ(j));
                    assert(same_but_pose(cur.arena.val_at(j), pre.arena.val_at(j)));
                    assert(cur.arena.val_at(j).body_type == pre.arena.val_at(j).body_type);
                    assert(set.arena.val_at(j).position == cur.arena.val_at(j).position);
                }
                assert forall|h: Index| cur.arena.valid(h) <==> pre.arena.valid(h) by {
                    if 0 <= h.slot < cur.arena.slot_count() {
                        assert(cur.arena.occ(h.slot as int) == pre.arena.occ(h.slot as int));
                        assert(cur.arena.gen_at(h.slot as int) == pre.arena.gen_at(
                            h.slot as int,
                        ));
                    }
                }
                lemma_joint_step_agree(
                    *joints,
                    cur,
                    pre,
                    bodies_view(cur),
                    k as int,
                    dt as int,
                );
                assert(bodies_view(*set) == joint_step_s(
                    *joints,
                    pre,
                    bodies_view(cur),
                    k as int,
                    dt as int,
                ));
            }
            k = k + 1;
        }
        proof {
            assert(bodies_view(*set) == joints_fold_s(
                *joints,
                pre,
                bodies_view(pre),
                it as int + 1,
                dt as int,
            ));
        }
        it = it + 1;
    }
}

/// Solve the joint in slot `k`, if it is live and both its bodies are.
#[verifier::rlimit(100)]
fn solve_one_joint(joints: &Arena<FixedJoint>, set: &mut RigidBodySet, k: usize, dt: i64)
    requires
        old(set).wf(),
        joints.wf(),
        forall|i: int| #[trigger] joints.occ(i) ==> joint_wf(joints.val_at(i)),
        k < joints.slot_count(),
        1 <= dt <= FX_ONE,
    ensures
        final(set).wf(),
        final(set).arena.slot_count() == old(set).arena.slot_count(),
        forall|j: int|
            0 <= j < final(set).arena.slot_count() ==> #[trigger] final(set).arena.occ(j) == old(set).arena.occ(j),
        forall|j: int|
            0 <= j < final(set).arena.slot_count() ==> #[trigger] final(set).arena.gen_at(j)
                == old(set).arena.gen_at(j),
        forall|j: int|
            #[trigger] old(set).arena.occ(j) ==> same_but_pose(
                final(set).arena.val_at(j),
                old(set).arena.val_at(j),
            ),
        forall|j: int|
            #[trigger] old(set).arena.occ(j) && old(set).arena.val_at(j).body_type
                != RigidBodyType::Dynamic ==> final(set).arena.val_at(j).position == old(set).arena.val_at(j).position,
        bodies_view(*final(set)) == joint_step_s(
            *joints,
            *old(set),
            bodies_view(*old(set)),
            k as int,
            dt as int,
        ),
{
    let ghost pre = *set;
    let joint = match joints.get_slot(k) {
        Some(j) => Some(*j),
        None => None,
    };
    match joint {
        None => {},
        Some(j) => {
            proof {
                assert(j == joints.val_at(k as int));
            }
            if j.rigid_body_a.0.slot != j.rigid_body_b.0.slot {
                let a_state = match set.get(j.rigid_body_a) {
                    Some(b) => Some(
                        (b.position, b.rotation, b.calculated_mass, b.body_type),
                    ),
                    None => None,
                };
                let b_state = match set.get(j.rigid_body_b) {
                    Some(b) => Some(
                        (b.position, b.rotation, b.calculated_mass, b.body_type),
                    ),
                    None => None,
                };
                match (a_state, b_state) {
                    (Some((apos, arot, am, at)), Some((bpos, brot, bm, bt))) => {
                        proof {
                            assert(bodies_view(pre)[j.rigid_body_a.0.slot as int] == Some(
                                pre.arena.at(j.rigid_body_a.0),
                            ));
                            assert(bodies_view(pre)[j.rigid_body_b.0.slot as int] == Some(
                                pre.arena.at(j.rigid_body_b.0),
                            ));
                        }
                        if am > 0 && bm > 0 {
                            let dyn_a = at == RigidBodyType::Dynamic;
                            let dyn_b = bt == RigidBodyType::Dynamic;
                            let res = solve_joint_pair(
                                apos,
                                bpos,
                                j.anchor_a,
                                j.anchor_b,
                                j.distance,
                                am,
                                bm,
                                dyn_a,
                                dyn_b,
                                arot,
                                brot,
                                j.target_angle,
                                dt,
                            );
                            let ghost mid0 = *set;
                            {
                                let body_a = set.arena.borrow_mut(j.rigid_body_a.0);
                                body_a.position = res.pos_a;
                                body_a.rotation = res.rot_a;
                            }
                            let ghost mid1 = *set;
                            proof {
                                assert(set.arena.occ(j.rigid_body_b.0.slot as int)
                                    == pre.arena.occ(j.rigid_body_b.0.slot as int));
                                assert(set.arena.gen_at(j.rigid_body_b.0.slot as int)
                                    == pre.arena.gen_at(j.rigid_body_b.0.slot as int));
                                assert(set.arena.valid(j.rigid_body_b.0));
                            }
                            {
                                let body_b = set.arena.borrow_mut(j.rigid_body_b.0);
                                body_b.position = res.pos_b;
                                body_b.rotation = res.rot_b;
                            }
                            proof {
                                assert forall|q: int|
                                    0 <= q < set.arena.slot_count() implies #[trigger] set
                                    .arena.occ(q) == pre.arena.occ(q) by {
                                    assert(set.arena.occ(q) == mid1.arena.occ(q));
                                    assert(mid1.arena.occ(q) == mid0.arena.occ(q));
                                }
                                assert forall|q: int|
                                    0 <= q < set.arena.slot_count() implies #[trigger] set
                                    .arena.gen_at(q) == pre.arena.gen_at(q) by {
                                    assert(set.arena.occ(q) == mid1.arena.occ(q));
                                    assert(set.arena.gen_at(q) == mid1.arena.gen_at(q));
                                    assert(mid1.arena.occ(q) == mid0.arena.occ(q));
                                    assert(mid1.arena.gen_at(q) == mid0.arena.gen_at(q));
                                }
                                assert forall|q: int| #[trigger] pre.arena.occ(q) implies
                                    same_but_pose(set.arena.val_at(q), pre.arena.val_at(q)) by {
                                    assert(mid0.arena.occ(q));
                                    assert(mid1.arena.occ(q));
                                    assert(set.arena.occ(q));
                                    if q != j.rigid_body_a.0.slot && q
                                        != j.rigid_body_b.0.slot {
                                        assert(mid1.arena.val_at(q) == mid0.arena.val_at(q));
                                        assert(set.arena.val_at(q) == mid1.arena.val_at(q));
                                    }
                                }
                                assert forall|q: int|
                                    #[trigger] pre.arena.occ(q) && pre.arena.val_at(q).body_type
                                        != RigidBodyType::Dynamic implies set.arena.val_at(
                                    q,
                                ).position == pre.arena.val_at(q).position by {
                                    assert(mid0.arena.occ(q));
                                    assert(mid1.arena.occ(q));
                                    if q == j.rigid_body_a.0.slot {
                                        assert(!dyn_a);
                                        assert(res.pos_a == apos);
                                        assert(mid1.arena.val_at(q).position == res.pos_a);
                                        assert(set.arena.occ(q));
                                        assert(set.arena.val_at(q) == mid1.arena.val_at(q));
                                    } else if q == j.rigid_body_b.0.slot {
                                        assert(!dyn_b);
                                        assert(res.pos_b == bpos);
                                        assert(set.arena.val_at(q).position == res.pos_b);
                                    } else {
                                        assert(set.arena.occ(q) && mid1.arena.occ(q));
                                        assert(mid1.arena.val_at(q) == mid0.arena.val_at(q));
                                        assert(set.arena.val_at(q) == mid1.arena.val_at(q));
                                        assert(mid0.arena.val_at(q) == pre.arena.val_at(q));
                                    }
                                }
                                assert forall|q: int| #[trigger] set.arena.occ(q) implies
                                    body_wf(set.arena.val_at(q)) by {
                                    assert(pre.arena.occ(q));
                                    assert(mid0.arena.occ(q));
                                    assert(mid1.arena.occ(q));
                                }
                                assert(mid1.arena.at(j.rigid_body_a.0) == (RigidBody {
                                    position: res.pos_a,
                                    rotation: res.rot_a,
                                    ..pre.arena.at(j.rigid_body_a.0)
                                }));
                                assert(set.arena.occ(j.rigid_body_a.0.slot as int));
                                assert(set.arena.val_at(j.rigid_body_a.0.slot as int)
                                    == mid1.arena.val_at(j.rigid_body_a.0.slot as int));
                                assert(set.arena.at(j.rigid_body_b.0) == (RigidBody {
                                    position: res.pos_b,
                                    rotation: res.rot_b,
                                    ..mid1.arena.at(j.rigid_body_b.0)
                                }));
                                assert(mid1.arena.at(j.rigid_body_b.0) == pre.arena.at(
                                    j.rigid_body_b.0,
                                ));
                                assert(bodies_view(*set) =~= joint_step_s(
                                    *joints,
                                    pre,
                                    bodies_view(pre),
                                    k as int,
                                    dt as int,
                                ));
                            }
                        }
                    },
                    _ => {},
                }
            }
        },
    }
}

/// Spatial-hash-accelerated collision resolution: for each collider,
/// candidates come from a query around its parent's position with the
/// collider's radius plus one unit of slack, and each surviving pair is
/// resolved exactly as in the brute-force pass, once.
#[verifier::rlimit(100)]
fn spatial_pass(
    cols: &ColliderSet,
    set: &mut RigidBodySet,
    spatial: &SpatialHash,
    events: &mut Vec<CollisionEvent>,
)
    requires
        old(set).wf(),
        cols.wf(),
        spatial.wf(),
    ensures
        final(set).wf(),
        final(set).arena.slot_count() == old(set).arena.slot_count(),
        forall|j: int|
            0 <= j < final(set).arena.slot_count() ==> #[trigger] final(set).arena.occ(j) == old(set).arena.occ(j),
        forall|j: int|
            0 <= j < final(set).arena.slot_count() ==> #[trigger] final(set).arena.gen_at(j)
                == old(set).arena.gen_at(j),
        forall|j: int|
            #[trigger] old(set).arena.occ(j) ==> same_but_position(
                final(set).arena.val_at(j),
                old(set).arena.val_at(j),
            ),
        forall|j: int|
            #[trigger] old(set).arena.occ(j) && old(set).arena.val_at(j).body_type
                != RigidBodyType::Dynamic ==> final(set).arena.val_at(j).position == old(set).arena.val_at(j).position,
        final(events)@.len() >= old(events)@.len(),
        final(events)@.subrange(0, old(events)@.len() as int) == old(events)@,
        // the pass is a sequence of exact pair steps over ordered
        // candidate pairs; which pairs the broad phase offers depends
        // on the index contents, which mid-pass are approximate by
        // design, so the sequence is existential
        exists|ps: Seq<(int, int)>|
            {
                &&& (PassState { bodies: bodies_view(*final(set)), events: final(events)@ })
                    == pairs_fold_s(
                    *cols,
                    *old(set),
                    PassState { bodies: bodies_view(*old(set)), events: old(events)@ },
                    ps,
                    ps.len() as int,
                )
                &&& forall|q: int|
                    0 <= q < ps.len() ==> 0 <= (#[trigger] ps[q]).0 && ps[q].1 > ps[q].0
                        && ps[q].1 < cols.arena.slot_count()
            },
{
    let ghost pre = *set;
    let ghost pre_events = events@;
    let ghost st0 = PassState { bodies: bodies_view(pre), events: pre_events };
    let ghost mut tested: Seq<(int, int)> = Seq::empty();
    proof {
        assert((PassState { bodies: bodies_view(*set), events: events@ }) == pairs_fold_s(
            *cols,
            pre,
            st0,
            tested,
            0,
        ));
    }
    let n = cols.arena.num_slots();
    let mut i: usize = 0;
    while i < n
        invariant
            cols.wf(),
            spatial.wf(),
            n == cols.arena.slot_count(),
            0 <= i <= n,
            set.wf(),
            st0 == (PassState { bodies: bodies_view(pre), events: pre_events }),
            (PassState { bodies: bodies_view(*set), events: events@ }) == pairs_fold_s(
                *cols,
                pre,
                st0,
                tested,
                tested.len() as int,
            ),
            forall|q: int|
                0 <= q < tested.len() ==> 0 <= (#[trigger] tested[q]).0 && tested[q].1
                    > tested[q].0 && tested[q].1 < cols.arena.slot_count(),
            set.arena.slot_count() == pre.arena.slot_count(),
            forall|j: int|
                0 <= j < set.arena.slot_count() ==> #[trigger] set.arena.occ(j) == pre.arena.occ(
                    j,
                ),
            forall|j: int|
                0 <= j < set.arena.slot_count() ==> #[trigger] set.arena.gen_at(j)
                    == pre.arena.gen_at(j),
            forall|j: int|
                #[trigger] pre.arena.occ(j) ==> same_but_position(
                    set.arena.val_at(j),
                    pre.arena.val_at(j),
                ),
            forall|j: int|
                #[trigger] pre.arena.occ(j) && pre.arena.val_at(j).body_type
                    != RigidBodyType::Dynamic ==> set.arena.val_at(j).position
                    == pre.arena.val_at(j).position,
            events@.len() >= pre_events.len(),
            events@.subrange(0, pre_events.len() as int) == pre_events,
        decreases n - i,
    {
        let ghost cur = *set;
        let ghost cur_events = events@;
        scan_collider(cols, set, spatial, events, i);
        proof {
            let qs = choose|qs: Seq<(int, int)>|
                {
                    &&& (PassState { bodies: bodies_view(*set), events: events@ })
                        == pairs_fold_s(
                        *cols,
                        cur,
                        PassState { bodies: bodies_view(cur), events: cur_events },
                        qs,
                        qs.len() as int,
                    )
                    &&& forall|q: int|
                        0 <= q < qs.len() ==> (#[trigger] qs[q]).0 == i as int && qs[q].1
                            > i as int && qs[q].1 < cols.arena.slot_count()
                };
            assert forall|h3: Index| cur.arena.valid(h3) <==> pre.arena.valid(h3) by {
                if 0 <= h3.slot < cur.arena.slot_count() {
                    assert(cur.arena.occ(h3.slot as int) == pre.arena.occ(h3.slot as int));
                    assert(cur.arena.gen_at(h3.slot as int) == pre.arena.gen_at(
                        h3.slot as int,
                    ));
                }
            }
            lemma_pairs_fold_agree(
                *cols,
                cur,
                pre,
                PassState { bodies: bodies_view(cur), events: cur_events },
                qs,
                qs.len() as int,
            );
            lemma_pairs_fold_concat(*cols, pre, st0, tested, qs, qs.len() as int);
            tested = tested + qs;
            assert((PassState { bodies: bodies_view(*set), events: events@ }) == pairs_fold_s(
                *cols,
                pre,
                st0,
                tested,
                tested.len() as int,
            ));
            assert forall|j: int|
                0 <= j < set.arena.slot_count() implies #[trigger] set.arena.occ(j)
                == pre.arena.occ(j) by {
                assert(set.arena.occ(j) == cur.arena.occ(j));
                assert(cur.arena.occ(j) == pre.arena.occ(j));
            }
            assert forall|j: int|
                0 <= j < set.arena.slot_count() implies #[trigger] set.arena.gen_at(j)
                == pre.arena.gen_at(j) by {
                assert(set.arena.gen_at(j) == cur.arena.gen_at(j));
                assert(cur.arena.gen_at(j) == pre.arena.gen_at(j));
            }
            assert forall|j: int| #[trigger] pre.arena.occ(j) implies same_but_position(
                set.arena.val_at(j),
                pre.arena.val_at(j),
            ) by {
                assert(cur.arena.occ(j));
                assert(same_but_position(set.arena.val_at(j), cur.arena.val_at(j)));
                assert(same_but_position(cur.arena.val_at(j), pre.arena.val_at(j)));
            }
            assert forall|j: int|
                #[trigger] pre.arena.occ(j) && pre.arena.val_at(j).body_type
                    != RigidBodyType::Dynamic implies set.arena.val_at(j).position
                == pre.arena.val_at(j).position by {
                assert(cur.arena.occ(j));
                assert(same_but_position(cur.arena.val_at(j), pre.arena.val_at(j)));
                assert(cur.arena.val_at(j).body_type == pre.arena.val_at(j).body_type);
                assert(set.arena.val_at(j).position == cur.arena.val_at(j).position);
            }
            assert(events@.subrange(0, cur_events.len() as int) == cur_events);
            assert(events@.subrange(0, pre_events.len() as int) =~= pre_events);
        }
        i = i + 1;
    }
    proof {
        assert((PassState { bodies: bodies_view(*set), events: events@ }) == pairs_fold_s(
            *cols,
            pre,
            st0,
            tested,
            tested.len() as int,
        ));
    }
}

/// Scan the broad phase around one collider and resolve its candidate
/// pairs.
#[verifier::rlimit(100)]
fn scan_collider(
    cols: &ColliderSet,
    set: &mut RigidBodySet,
    spatial: &SpatialHash,
    events: &mut Vec<CollisionEvent>,
    i: usize,
)
    requires
        old(set).wf(),
        cols.wf(),
        spatial.wf(),
        i < cols.arena.slot_count(),
    ensures
        final(set).wf(),
        final(set).arena.slot_count() == old(set).arena.slot_count(),
        forall|j: int|
            0 <= j < final(set).arena.slot_count() ==> #[trigger] final(set).arena.occ(j) == old(set).arena.occ(j),
        forall|j: int|
            0 <= j < final(set).arena.slot_count() ==> #[trigger] final(set).arena.gen_at(j)
                == old(set).arena.gen_at(j),
        forall|j: int|
            #[trigger] old(set).arena.occ(j) ==> same_but_position(
                final(set).arena.val_at(j),
                old(set).arena.val_at(j),
            ),
        forall|j: int|
            #[trigger] old(set).arena.occ(j) && old(set).arena.val_at(j).body_type
                != RigidBodyType::Dynamic ==> final(set).arena.val_at(j).position == old(set).arena.val_at(j).position,
        final(events)@.len() >= old(events)@.len(),
        final(events)@.subrange(0, old(events)@.len() as int) == old(events)@,
        // the scan is a sequence of exact pair steps, each against a
        // candidate collider of this slot found through the broad phase
        exists|qs: Seq<(int, int)>|
            {
                &&& (PassState { bodies: bodies_view(*final(set)), events: final(events)@ })
                    == pairs_fold_s(
                    *cols,
                    *old(set),
                    PassState { bodies: bodies_view(*old(set)), events: old(events)@ },
                    qs,
                    qs.len() as int,
                )
                &&& forall|q: int|
                    0 <= q < qs.len() ==> (#[trigger] qs[q]).0 == i as int && qs[q].1 > i as int
                        && qs[q].1 < cols.arena.slot_count()
            },
{
    let ghost pre = *set;
    let ghost pre_events = events@;
    let ghost st0 = PassState { bodies: bodies_view(pre), events: pre_events };
    let ghost mut tested: Seq<(int, int)> = Seq::empty();
    proof {
        assert((PassState { bodies: bodies_view(*set), events: events@ }) == pairs_fold_s(
            *cols,
            pre,
            st0,
            tested,
            0,
        ));
    }
    let ca = match cols.arena.get_slot(i) {
        Some(c) => Some(*c),
        None => None,
    };
    match ca {
        None => {},
        Some(ca) => {
            match ca.parent {
                None => {},
                Some(pa_h) => {
                    let apos = match set.get(pa_h) {
                        Some(b) => Some(b.position),
                        None => None,
                    };
                    match apos {
                        None => {},
                        Some(apos) => {
                            let qr = crate::fx::clamp64(ca.radius + FX_ONE);
                            proof {
                                assert(0 <= qr <= FX_LIM);
                            }
                            let hits = spatial.query(apos, qr);
                            let hn = hits.len();
                            let mut h: usize = 0;
                            while h < hn
                                invariant
                                    cols.wf(),
                                    spatial.wf(),
                                    hn == hits@.len(),
                                    0 <= h <= hn,
                                    i < cols.arena.slot_count(),
                                    set.wf(),
                                    st0 == (PassState { bodies: bodies_view(pre), events: pre_events }),
                                    (PassState { bodies: bodies_view(*set), events: events@ })
                                        == pairs_fold_s(
                                        *cols,
                                        pre,
                                        st0,
                                        tested,
                                        tested.len() as int,
                                    ),
                                    forall|q: int|
                                        0 <= q < tested.len() ==> (#[trigger] tested[q]).0
                                            == i as int && tested[q].1 > i as int && tested[q].1
                                            < cols.arena.slot_count(),
                                    set.arena.slot_count() == pre.arena.slot_count(),
                                    forall|j: int|
                                        0 <= j < set.arena.slot_count() ==> #[trigger] set
                                            .arena.occ(j) == pre.arena.occ(j),
                                    forall|j: int|
                                        0 <= j < set.arena.slot_count() ==> #[trigger] set
                                            .arena.gen_at(j) == pre.arena.gen_at(j),
                                    forall|j: int|
                                        #[trigger] pre.arena.occ(j) ==> same_but_position(
                                            set.arena.val_at(j),
                                            pre.arena.val_at(j),
                                        ),
                                    forall|j: int|
                                        #[trigger] pre.arena.occ(j) && pre.arena.val_at(
                                            j,
                                        ).body_type != RigidBodyType::Dynamic ==> set.arena.val_at(
                                            j,
                                        ).position == pre.arena.val_at(j).position,
                                    events@.len() >= pre_events.len(),
                                    events@.subrange(0, pre_events.len() as int) == pre_events,
                                decreases hn - h,
                            {
                                let hb = Index::from_bits(hits[h].id);
                                let bh = RigidBodyHandle(hb);
                                if hb.slot != pa_h.0.slot && set.contains(bh) {
                                    let list: Vec<ColliderHandle> = {
                                        let mut out: Vec<ColliderHandle> = Vec::new();
                                        match set.get(bh) {
                                            Some(body) => {
                                                let m = body.colliders.len();
                                                let mut w: usize = 0;
                                                while w < m
                                                    invariant
                                                        0 <= w <= m,
                                                        m == body.colliders@.len(),
                                                    decreases m - w,
                                                {
                                                    out.push(body.colliders[w]);
                                                    w = w + 1;
                                                }
                                            },
                                            None => {},
                                        }
                                        out
                                    };
                                    let m = list.len();
                                    let mut w: usize = 0;
                                    while w < m
                                        invariant
                                            cols.wf(),
                                            m == list@.len(),
                                            0 <= w <= m,
                                            i < cols.arena.slot_count(),
                                            set.wf(),
                                            st0 == (PassState {
                                                bodies: bodies_view(pre),
                                                events: pre_events,
                                            }),
                                            (PassState {
                                                bodies: bodies_view(*set),
                                                events: events@,
                                            }) == pairs_fold_s(
                                                *cols,
                                                pre,
                                                st0,
                                                tested,
                                                tested.len() as int,
                                            ),
                                            forall|q: int|
                                                0 <= q < tested.len() ==> (#[trigger] tested[
                                                    q
                                                ]).0 == i as int && tested[q].1 > i as int
                                                    && tested[q].1 < cols.arena.slot_count(),
                                            set.arena.slot_count() == pre.arena.slot_count(),
                                            forall|j: int|
                                                0 <= j < set.arena.slot_count()
                                                    ==> #[trigger] set.arena.occ(j)
                                                    == pre.arena.occ(j),
                                            forall|j: int|
                                                0 <= j < set.arena.slot_count()
                                                    ==> #[trigger] set.arena.gen_at(j)
                                                    == pre.arena.gen_at(j),
                                            forall|j: int|
                                                #[trigger] pre.arena.occ(j)
                                                    ==> same_but_position(
                                                    set.arena.val_at(j),
                                                    pre.arena.val_at(j),
                                                ),
                                            forall|j: int|
                                                #[trigger] pre.arena.occ(j) && pre.arena.val_at(
                                                    j,
                                                ).body_type != RigidBodyType::Dynamic ==> set
                                                    .arena.val_at(j).position == pre.arena.val_at(
                                                    j,
                                                ).position,
                                            events@.len() >= pre_events.len(),
                                            events@.subrange(0, pre_events.len() as int)
                                                == pre_events,
                                        decreases m - w,
                                    {
                                        let ch = list[w];
                                        let cj = ch.0.slot as usize;
                                        if cj > i && cj < cols.arena.num_slots() {
                                            let ghost cur = *set;
                                            let ghost cur_events = events@;
                                            collide_slots(cols, set, events, i, cj);
                                            proof {
                                                let ghost t0 = tested;
                                                tested = tested.push((i as int, cj as int));
                                                assert forall|h3: Index|
                                                    cur.arena.valid(h3) <==> pre.arena.valid(
                                                    h3,
                                                ) by {
                                                    if 0 <= h3.slot < cur.arena.slot_count() {
                                                        assert(cur.arena.occ(h3.slot as int)
                                                            == pre.arena.occ(h3.slot as int));
                                                        assert(cur.arena.gen_at(h3.slot as int)
                                                            == pre.arena.gen_at(
                                                            h3.slot as int,
                                                        ));
                                                    }
                                                }
                                                lemma_collide_step_agree(
                                                    *cols,
                                                    cur,
                                                    pre,
                                                    PassState {
                                                        bodies: bodies_view(cur),
                                                        events: cur_events,
                                                    },
                                                    i as int,
                                                    cj as int,
                                                );
                                                lemma_pairs_fold_prefix(
                                                    *cols,
                                                    pre,
                                                    st0,
                                                    tested,
                                                    t0,
                                                    t0.len() as int,
                                                );
                                                assert(tested[tested.len() - 1] == (
                                                    i as int,
                                                    cj as int,
                                                ));
                                                assert((PassState {
                                                    bodies: bodies_view(*set),
                                                    events: events@,
                                                }) == pairs_fold_s(
                                                    *cols,
                                                    pre,
                                                    st0,
                                                    tested,
                                                    tested.len() as int,
                                                ));
                                                assert forall|j: int|
                                                    0 <= j < set.arena.slot_count()
                                                        implies #[trigger] set.arena.occ(j)
                                                    == pre.arena.occ(j) by {
                                                    assert(set.arena.occ(j) == cur.arena.occ(j));
                                                    assert(cur.arena.occ(j) == pre.arena.occ(j));
                                                }
                                                assert forall|j: int|
                                                    0 <= j < set.arena.slot_count()
                                                        implies #[trigger] set.arena.gen_at(j)
                                                    == pre.arena.gen_at(j) by {
                                                    assert(set.arena.occ(j) == cur.arena.occ(j));
                                                    assert(set.arena.gen_at(j)
                                                        == cur.arena.gen_at(j));
                                                    assert(cur.arena.gen_at(j)
                                                        == pre.arena.gen_at(j));
                                                }
                                                assert forall|j: int|
                                                    #[trigger] pre.arena.occ(j) implies
                                                    same_but_position(
                                                    set.arena.val_at(j),
                                                    pre.arena.val_at(j),
                                                ) by {
                                                    assert(cur.arena.occ(j));
                                                    assert(same_but_position(
                                                        set.arena.val_at(j),
                                                        cur.arena.val_at(j),
                                                    ));
                                                    assert(same_but_position(
                                                        cur.arena.val_at(j),
                                                        pre.arena.val_at(j),
                                                    ));
                                                }
                                                assert forall|j: int|
                                                    #[trigger] pre.arena.occ(j)
                                                        && pre.arena.val_at(j).body_type
                                                        != RigidBodyType::Dynamic implies set
                                                    .arena.val_at(j).position == pre.arena.val_at(
                                                    j,
                                                ).position by {
                                                    assert(cur.arena.occ(j));
                                                    assert(same_but_position(
                                                        cur.arena.val_at(j),
                                                        pre.arena.val_at(j),
                                                    ));
                                                    assert(cur.arena.val_at(j).body_type
                                                        == pre.arena.val_at(j).body_type);
                                                    assert(set.arena.val_at(j).position
                                                        == cur.arena.val_at(j).position);
                                                }
                                                assert(events@.subrange(
                                                    0,
                                                    cur_events.len() as int,
                                                ) == cur_events);
                                                assert(events@.subrange(
                                                    0,
                                                    pre_events.len() as int,
                                                ) =~= pre_events);
                                            }
                                        }
                                        w = w + 1;
                                    }
                                }
                                h = h + 1;
                            }
                        },
                    }
                },
            }
        },
    }
    proof {
        assert((PassState { bodies: bodies_view(*set), events: events@ }) == pairs_fold_s(
            *cols,
            pre,
            st0,
            tested,
            tested.len() as int,
        ));
    }
}

/// One semi-implicit Verlet step of a single body: a pending velocity
/// request becomes an implicit previous-position offset, the position
/// advances by displacement plus acceleration times the squared step,
/// the rotation integrates the angular state, accumulators reset, and
/// the derived velocity becomes displacement over the step.  A static
/// body only has its Verlet state and accumulators pinned.
pub open spec fn verlet_applied(b: RigidBody, dt: int) -> RigidBody {
    if b.body_type == RigidBodyType::Static {
        RigidBody {
            position_old: b.position,
            acceleration: Vec2 { x: 0i64, y: 0i64 },
            calculated_velocity: Vec2 { x: 0i64, y: 0i64 },
            ..b
        }
    } else {
        let p0 = b.position@;
        let eff_old = match b.velocity_request {
            Some(v) => v_clamp(
                v_sub(p0, V2i { x: fx_mul_cs(v@.x, dt), y: fx_mul_cs(v@.y, dt) }),
            ),
            None => b.position_old@,
        };
        let disp = v_clamp(v_sub(p0, eff_old));
        let a1 = V2i {
            x: fx_mul_cs(b.acceleration@.x, dt),
            y: fx_mul_cs(b.acceleration@.y, dt),
        };
        let a2 = V2i { x: fx_mul_cs(a1.x, dt), y: fx_mul_cs(a1.y, dt) };
        let p1 = v_clamp(v_add(p0, disp));
        let p2 = v_clamp(v_add(p1, a2));
        let av = if b.inertia > 0 {
            clamp_s(
                b.angular_velocity + fx_mul_cs(
                    clamp_s(fx_div_s(b.torque as int, b.inertia as int)),
                    dt,
                ),
            )
        } else {
            b.angular_velocity as int
        };
        let rot = clamp_s(b.rotation + fx_mul_cs(av, dt));
        let vel = V2i { x: clamp_s(fx_div_s(disp.x, dt)), y: clamp_s(fx_div_s(disp.y, dt)) };
        RigidBody {
            position: Vec2 { x: p2.x as i64, y: p2.y as i64 },
            position_old: Vec2 { x: p0.x as i64, y: p0.y as i64 },
            angular_velocity: av as i64,
            rotation: rot as i64,
            torque: 0i64,
            acceleration: Vec2 { x: 0i64, y: 0i64 },
            velocity_request: None,
            calculated_velocity: Vec2 { x: vel.x as i64, y: vel.y as i64 },
            ..b
        }
    }
}

/// Integrate every body one substep and re-sync each body's spatial
/// point to its new position.
#[verifier::rlimit(100)]
fn integrate_bodies(set: &mut RigidBodySet, spatial: &mut SpatialHash, dt: i64)
    requires
        old(set).wf(),
        old(spatial).wf(),
        1 <= dt <= FX_ONE,
        forall|i: int|
            #[trigger] old(set).arena.occ(i) ==> old(spatial).points_s().contains_key(
                slot_bits(*old(set), i) as u64,
            ),
        forall|id: u64|
            #[trigger] old(spatial).points_s().contains_key(id) ==> {
                &&& old(set).arena.occ((id as int) % 0x1_0000_0000)
                &&& old(set).arena.gen_at((id as int) % 0x1_0000_0000) == (id as int)
                    / 0x1_0000_0000
            },
    ensures
        final(set).wf(),
        final(spatial).wf(),
        final(spatial).cell_size_s() == old(spatial).cell_size_s(),
        final(spatial).next_id_s() == old(spatial).next_id_s(),
        final(spatial).points_s().dom() == old(spatial).points_s().dom(),
        final(set).arena.slot_count() == old(set).arena.slot_count(),
        forall|j: int|
            0 <= j < final(set).arena.slot_count() ==> #[trigger] final(set).arena.occ(j) == old(set).arena.occ(j),
        forall|j: int|
            0 <= j < final(set).arena.slot_count() ==> #[trigger] final(set).arena.gen_at(j)
                == old(set).arena.gen_at(j),
        forall|j: int|
            #[trigger] old(set).arena.occ(j) ==> final(set).arena.val_at(j) == verlet_applied(
                old(set).arena.val_at(j),
                dt as int,
            ),
        forall|j: int|
            #[trigger] final(set).arena.occ(j) ==> final(spatial).points_s().contains_key(
                slot_bits(*final(set), j) as u64,
            ) && final(spatial).points_s()[slot_bits(*final(set), j) as u64].position == final(set).arena.val_at(j).position,
{
    let ghost pre = *set;
    let ghost pre_sp = *spatial;
    let n = set.arena.num_slots();
    let mut i: usize = 0;
    while i < n
        invariant
            1 <= dt <= FX_ONE,
            n == set.arena.slot_count(),
            0 <= i <= n,
            set.wf(),
            spatial.wf(),
            spatial.cell_size_s() == pre_sp.cell_size_s(),
            spatial.next_id_s() == pre_sp.next_id_s(),
            spatial.points_s().dom() == pre_sp.points_s().dom(),
            set.arena.slot_count() == pre.arena.slot_count(),
            forall|j: int|
                0 <= j < n ==> #[trigger] set.arena.occ(j) == pre.arena.occ(j),
            forall|j: int|
                0 <= j < n ==> #[trigger] set.arena.gen_at(j) == pre.arena.gen_at(j),
            forall|j: int|
                #[trigger] pre.arena.occ(j) && j < i ==> set.arena.val_at(j) == verlet_applied(
                    pre.arena.val_at(j),
                    dt as int,
                ),
            forall|j: int|
                #[trigger] pre.arena.occ(j) && j >= i ==> set.arena.val_at(j) == pre.arena.val_at(
                    j,
                ),
            forall|j: int|
                #[trigger] pre.arena.occ(j) ==> pre_sp.points_s().contains_key(
                    slot_bits(pre, j) as u64,
                ),
            forall|id: u64|
                #[trigger] pre_sp.points_s().contains_key(id) ==> {
                    &&& pre.arena.occ((id as int) % 0x1_0000_0000)
                    &&& pre.arena.gen_at((id as int) % 0x1_0000_0000) == (id as int)
                        / 0x1_0000_0000
                },
            forall|j: int|
                #[trigger] pre.arena.occ(j) && j < i ==> spatial.points_s()[slot_bits(
                    pre,
                    j,
                ) as u64].position == set.arena.val_at(j).position,
            forall|j: int|
                #[trigger] pre.arena.occ(j) && j >= i ==> spatial.points_s()[slot_bits(
                    pre,
                    j,
                ) as u64] == pre_sp.points_s()[slot_bits(pre, j) as u64],
        decreases n - i,
    {
        let ghost cur = *set;
        let ghost cur_sp = *spatial;
        let occupied = match set.arena.get_slot(i) {
            Some(_) => true,
            None => false,
        };
        if occupied {
            let handle = set.arena.handle_at(i);
            let bits = handle.to_bits();
            proof {
                vstd::arithmetic::div_mod::lemma_fundamental_div_mod_converse(
                    handle.bits(),
                    0x1_0000_0000,
                    handle.generation as int,
                    handle.slot as int,
                );
                assert(handle.bits() == slot_bits(pre, i as int));
                assert(pre_sp.points_s().contains_key(bits));
                assert(spatial.points_s().contains_key(bits));
            }
            let new_pos = {
                let body = set.arena.borrow_slot_mut(i);
                let is_static = body.body_type == RigidBodyType::Static;
                if is_static {
                    body.position_old = body.position;
                    body.acceleration = Vec2 { x: 0, y: 0 };
                    body.calculated_velocity = Vec2 { x: 0, y: 0 };
                    body.position
                } else {
                    let p0 = body.position;
                    let eff_old = match body.velocity_request {
                        Some(v) => {
                            proof {
                                lemma_mul_mag(v@.x, dt as int, FX_LIM as int);
                                lemma_mul_mag(v@.y, dt as int, FX_LIM as int);
                            }
                            let vd = Vec2 { x: fx_mul_c(v.x, dt), y: fx_mul_c(v.y, dt) };
                            v2_clamp(v2_sub(p0, vd))
                        },
                        None => body.position_old,
                    };
                    let disp = v2_clamp(v2_sub(p0, eff_old));
                    proof {
                        lemma_mul_mag(body.acceleration@.x, dt as int, FX_LIM as int);
                        lemma_mul_mag(body.acceleration@.y, dt as int, FX_LIM as int);
                    }
                    let a1 = Vec2 {
                        x: fx_mul_c(body.acceleration.x, dt),
                        y: fx_mul_c(body.acceleration.y, dt),
                    };
                    proof {
                        lemma_mul_mag(a1@.x, dt as int, FX_LIM as int);
                        lemma_mul_mag(a1@.y, dt as int, FX_LIM as int);
                    }
                    let a2 = Vec2 { x: fx_mul_c(a1.x, dt), y: fx_mul_c(a1.y, dt) };
                    let p1 = v2_clamp(v2_add(p0, disp));
                    let p2 = v2_clamp(v2_add(p1, a2));
                    let av = if body.inertia > 0 {
                        let tq = crate::fx::clamp64(fx_div(body.torque, body.inertia));
                        proof {
                            lemma_mul_mag(tq as int, dt as int, FX_LIM as int);
                        }
                        crate::fx::add_clamped(body.angular_velocity, fx_mul_c(tq, dt))
                    } else {
                        body.angular_velocity
                    };
                    proof {
                        lemma_mul_mag(av as int, dt as int, FX_LIM as int);
                    }
                    let rot = crate::fx::add_clamped(body.rotation, fx_mul_c(av, dt));
                    let vel = Vec2 {
                        x: crate::fx::clamp64(fx_div(disp.x, dt)),
                        y: crate::fx::clamp64(fx_div(disp.y, dt)),
                    };
                    body.position = p2;
                    body.position_old = p0;
                    body.angular_velocity = av;
                    body.rotation = rot;
                    body.torque = 0;
                    body.acceleration = Vec2 { x: 0, y: 0 };
                    body.velocity_request = None;
                    body.calculated_velocity = vel;
                    p2
                }
            };
            proof {
                assert(set.arena.val_at(i as int) == verlet_applied(
                    pre.arena.val_at(i as int),
                    dt as int,
                ));
                assert(set.arena.val_at(i as int).position == new_pos);
                assert(in_lim_v(new_pos@));
            }
            let point = match spatial.get_point(bits) {
                Some(p) => p,
                None => {
                    proof {
                        assert(false);
                    }
                    unreached()
                },
            };
            proof {
                crate::spatial::lemma_point_bounds(*spatial, bits);
            }
            let offset = v2_sub(new_pos, point.position);
            let moved = spatial.move_point(bits, offset);
            proof {
                assert(moved is Some);
                assert(spatial.points_s()[bits].position == new_pos);
                assert(spatial.points_s().dom() =~= cur_sp.points_s().dom().insert(bits));
                assert(spatial.points_s().dom() =~= cur_sp.points_s().dom());
                assert forall|j: int|
                    0 <= j < n implies #[trigger] set.arena.occ(j) == pre.arena.occ(j) by {
                    assert(set.arena.occ(j) == cur.arena.occ(j));
                    assert(cur.arena.occ(j) == pre.arena.occ(j));
                }
                assert forall|j: int|
                    0 <= j < n implies #[trigger] set.arena.gen_at(j) == pre.arena.gen_at(j) by {
                    assert(set.arena.occ(j) == cur.arena.occ(j));
                    assert(set.arena.gen_at(j) == cur.arena.gen_at(j));
                    assert(cur.arena.gen_at(j) == pre.arena.gen_at(j));
                }
                assert forall|j: int|
                    #[trigger] pre.arena.occ(j) && j != i implies set.arena.val_at(j)
                    == cur.arena.val_at(j) by {
                    assert(set.arena.occ(j) == cur.arena.occ(j));
                    assert(cur.arena.occ(j));
                }
                assert forall|j: int|
                    #[trigger] pre.arena.occ(j) && j != i implies slot_bits(pre, j) as u64
                    != bits by {
                    if slot_bits(pre, j) as u64 == bits {
                        vstd::arithmetic::div_mod::lemma_fundamental_div_mod_converse(
                            slot_bits(pre, j),
                            0x1_0000_0000,
                            pre.arena.gen_at(j),
                            j,
                        );
                        assert(j == handle.slot as int);
                        assert(false);
                    }
                }
            }
        }
        i = i + 1;
    }
}

/// A dynamic body clamped to one circular boundary: when it strays
/// beyond the radius, it is pulled back onto the circle along the ray
/// from the centre, exactly in integer arithmetic; anything not dynamic
/// is untouched.
pub open spec fn constrained(b: RigidBody, c: Constraint) -> RigidBody {
    if b.body_type != RigidBodyType::Dynamic {
        b
    } else {
        let to = v_sub(b.position@, c.position@);
        let d2 = v_len_sq(to);
        if d2 <= c.radius * c.radius {
            b
        } else {
            let du = crate::fx::sqrt_up_s(d2);
            let o = V2i { x: tdiv(to.x * c.radius, du), y: tdiv(to.y * c.radius, du) };
            RigidBody {
                position: Vec2 {
                    x: clamp_s(c.position@.x + o.x) as i64,
                    y: clamp_s(c.position@.y + o.y) as i64,
                },
                ..b
            }
        }
    }
}

/// A dynamic body folded through the whole constraint list, in order.
pub open spec fn constrained_all(b: RigidBody, cs: Seq<Constraint>, k: int) -> RigidBody
    decreases k,
{
    if k <= 0 {
        b
    } else {
        constrained(constrained_all(b, cs, k - 1), cs[k - 1])
    }
}

/// Law (containment): after clamping to a constraint, a dynamic body's
/// squared distance from that constraint's centre never exceeds the
/// squared radius.
pub proof fn lemma_constrained_contained(b: RigidBody, c: Constraint)
    requires
        body_wf(b),
        constraint_wf(c),
        b.body_type == RigidBodyType::Dynamic,
    ensures
        crate::spatial::dist_sq(constrained(b, c).position@, c.position@) <= c.radius * c.radius,
{
    let to = v_sub(b.position@, c.position@);
    let d2 = v_len_sq(to);
    let r = c.radius as int;
    if d2 <= r * r {
    } else {
        let du = crate::fx::sqrt_up_s(d2);
        assert(d2 >= 0 && d2 >= to.x * to.x && d2 >= to.y * to.y) by (nonlinear_arith)
            requires d2 == to.x * to.x + to.y * to.y;
        crate::fx::lemma_sqrt_up_ge(d2, to.x);
        crate::fx::lemma_sqrt_up_ge(d2, to.y);
        assert(du >= 1) by (nonlinear_arith)
            requires du >= 0 && d2 <= du * du && d2 > r * r && r >= 0;
        let ox = tdiv(to.x * r, du);
        let oy = tdiv(to.y * r, du);
        let ax = to.x * r;
        let ay = to.y * r;
        let mx = if ax >= 0 { ax } else { -ax };
        let my = if ay >= 0 { ay } else { -ay };
        crate::fx::lemma_tdiv_bound(ax, du, mx);
        crate::fx::lemma_tdiv_bound(ay, du, my);
        let qx = mx / du;
        let qy = my / du;
        vstd::arithmetic::div_mod::lemma_fundamental_div_mod(mx, du);
        vstd::arithmetic::div_mod::lemma_mod_bound(mx, du);
        vstd::arithmetic::div_mod::lemma_div_pos_is_pos(mx, du);
        vstd::arithmetic::div_mod::lemma_fundamental_div_mod(my, du);
        vstd::arithmetic::div_mod::lemma_mod_bound(my, du);
        vstd::arithmetic::div_mod::lemma_div_pos_is_pos(my, du);
        assert(qx * du <= mx) by (nonlinear_arith)
            requires mx == du * qx + mx % du && mx % du >= 0;
        assert(qy * du <= my) by (nonlinear_arith)
            requires my == du * qy + my % du && my % du >= 0;
        assert(ox * ox * (du * du) <= ax * ax) by (nonlinear_arith)
            requires du > 0 && qx >= 0 && -qx <= ox <= qx && qx * du <= mx && (mx == ax || mx
                == -ax) && mx >= 0;
        assert(oy * oy * (du * du) <= ay * ay) by (nonlinear_arith)
            requires du > 0 && qy >= 0 && -qy <= oy <= qy && qy * du <= my && (my == ay || my
                == -ay) && my >= 0;
        assert(ax * ax + ay * ay == d2 * (r * r)) by (nonlinear_arith)
            requires ax == to.x * r && ay == to.y * r && d2 == to.x * to.x + to.y * to.y;
        assert((ox * ox + oy * oy) * (du * du) == ox * ox * (du * du) + oy * oy * (du * du)) by (
        nonlinear_arith);
        assert((ox * ox + oy * oy) * (du * du) <= d2 * (r * r));
        assert(ox * ox + oy * oy <= r * r) by (nonlinear_arith)
            requires (ox * ox + oy * oy) * (du * du) <= d2 * (r * r) && d2 <= du * du && du > 0
                && r >= 0;
        let px = clamp_s(c.position@.x + ox);
        let py = clamp_s(c.position@.y + oy);
        assert(in_lim(c.position@.x) && in_lim(c.position@.y));
        assert((px - c.position@.x) * (px - c.position@.x) <= ox * ox && (py - c.position@.y) * (
        py - c.position@.y) <= oy * oy) by (nonlinear_arith)
            requires (0 <= px - c.position@.x <= ox || ox <= px - c.position@.x <= 0) && (0 <= py
                - c.position@.y <= oy || oy <= py - c.position@.y <= 0);
        assert(crate::spatial::dist_sq(constrained(b, c).position@, c.position@) == (px
            - c.position@.x) * (px - c.position@.x) + (py - c.position@.y) * (py
            - c.position@.y));
    }
}

/// Folding a body through constraints never changes its type, and
/// keeps it well formed.
pub proof fn lemma_constrained_all_wf(b: RigidBody, cs: Seq<Constraint>, k: int)
    requires
        body_wf(b),
        forall|q: int| 0 <= q < cs.len() ==> constraint_wf(#[trigger] cs[q]),
        0 <= k <= cs.len(),
    ensures
        body_wf(constrained_all(b, cs, k)),
        constrained_all(b, cs, k).body_type == b.body_type,
    decreases k,
{
    if k > 0 {
        lemma_constrained_all_wf(b, cs, k - 1);
    }
}

/// The constraint fold touches nothing but the position.
pub proof fn lemma_constrained_all_frame(b: RigidBody, cs: Seq<Constraint>, k: int)
    ensures
        constrained_all(b, cs, k) == (RigidBody {
            position: constrained_all(b, cs, k).position,
            ..b
        }),
    decreases k,
{
    if k > 0 {
        lemma_constrained_all_frame(b, cs, k - 1);
    }
}

/// A body that is not dynamic passes through the constraint fold
/// unchanged.
pub proof fn lemma_constrained_all_nondyn(b: RigidBody, cs: Seq<Constraint>, k: int)
    requires
        b.body_type != RigidBodyType::Dynamic,
    ensures
        constrained_all(b, cs, k) == b,
    decreases k,
{
    if k > 0 {
        lemma_constrained_all_nondyn(b, cs, k - 1);
    }
}

/// Law (boundary containment): after the constraint pass, a dynamic
/// body lies within the last-applied constraint's radius of its centre.
/// Earlier constraints can be re-violated by later ones, as in any
/// sequential clamp, so the guarantee is exact for the final one; with
/// a single registered constraint it covers every constraint.
pub proof fn lemma_constraints_contain(b: RigidBody, cs: Seq<Constraint>)
    requires
        body_wf(b),
        b.body_type == RigidBodyType::Dynamic,
        forall|q: int| 0 <= q < cs.len() ==> constraint_wf(#[trigger] cs[q]),
        cs.len() >= 1,
    ensures
        ({
            let last = cs[cs.len() - 1];
            crate::spatial::dist_sq(
                constrained_all(b, cs, cs.len() as int).position@,
                last.position@,
            ) <= last.radius * last.radius
        }),
{
    let k = cs.len() as int;
    lemma_constrained_all_wf(b, cs, k - 1);
    lemma_constrained_contained(constrained_all(b, cs, k - 1), cs[k - 1]);
}

/// Clamp one dynamic body to one constraint, exact per `constrained`.
#[verifier::rlimit(100)]
fn constrain_body(body: &mut RigidBody, c: &Constraint)
    requires
        body_wf(*old(body)),
        constraint_wf(*c),
    ensures
        *final(body) == constrained(*old(body), *c),
        body_wf(*final(body)),
{
    if body.body_type == RigidBodyType::Dynamic {
        let to = v2_sub(body.position, c.position);
        let d2 = crate::vec2::v2_len_sq_wide(to);
        proof {
            lemma_mul_mag(c.radius as int, c.radius as int, FX_LIM as int);
        }
        let r2 = (c.radius as u128) * (c.radius as u128);
        if d2 > r2 {
            let du = crate::fx::isqrt128_up(d2);
            proof {
                assert(d2 >= (to@.x) * (to@.x) && d2 >= (to@.y) * (to@.y)) by (nonlinear_arith)
                    requires d2 == to@.x * to@.x + to@.y * to@.y;
                crate::fx::lemma_sqrt_up_ge(d2 as int, to@.x);
                crate::fx::lemma_sqrt_up_ge(d2 as int, to@.y);
                assert(du >= 1) by (nonlinear_arith)
                    requires du as int >= 0 && d2 as int <= (du as int) * (du as int) && d2 as int > (c.radius as int) * (c.radius as int) && c.radius >= 0;
                lemma_mul_mag(to@.x, c.radius as int, 0x1_0000_0000_0000);
                lemma_mul_mag(to@.y, c.radius as int, 0x1_0000_0000_0000);
                assert(to@.x * c.radius <= (du as int) * (c.radius as int) && -((du as int) * (
                c.radius as int)) <= to@.x * c.radius) by (nonlinear_arith)
                    requires -(du as int) <= to@.x <= du as int && c.radius >= 0;
                assert(to@.y * c.radius <= (du as int) * (c.radius as int) && -((du as int) * (
                c.radius as int)) <= to@.y * c.radius) by (nonlinear_arith)
                    requires -(du as int) <= to@.y <= du as int && c.radius >= 0;
                crate::fx::lemma_tdiv_bound(
                    to@.x * c.radius,
                    du as int,
                    (du as int) * (c.radius as int),
                );
                crate::fx::lemma_tdiv_bound(
                    to@.y * c.radius,
                    du as int,
                    (du as int) * (c.radius as int),
                );
                vstd::arithmetic::div_mod::lemma_div_multiples_vanish(c.radius as int, du as int);
            }
            let ox = crate::fx::tdiv128((to.x as i128) * (c.radius as i128), du as i128) as i64;
            let oy = crate::fx::tdiv128((to.y as i128) * (c.radius as i128), du as i128) as i64;
            let px = crate::fx::add_clamped(c.position.x, ox);
            let py = crate::fx::add_clamped(c.position.y, oy);
            body.position = Vec2 { x: px, y: py };
        }
    }
}

/// Clamp every dynamic body to every registered constraint, in list
/// order.
#[verifier::rlimit(100)]
fn constraints_pass(set: &mut RigidBodySet, constraints: &Vec<Constraint>)
    requires
        old(set).wf(),
        forall|k: int|
            0 <= k < constraints@.len() ==> constraint_wf(#[trigger] constraints@[k]),
    ensures
        final(set).wf(),
        final(set).arena.slot_count() == old(set).arena.slot_count(),
        forall|j: int|
            0 <= j < final(set).arena.slot_count() ==> #[trigger] final(set).arena.occ(j) == old(set).arena.occ(j),
        forall|j: int|
            0 <= j < final(set).arena.slot_count() ==> #[trigger] final(set).arena.gen_at(j)
                == old(set).arena.gen_at(j),
        forall|j: int|
            #[trigger] old(set).arena.occ(j) ==> final(set).arena.val_at(j) == constrained_all(
                old(set).arena.val_at(j),
                constraints@,
                constraints@.len() as int,
            ),
{
    let ghost pre = *set;
    let n = set.arena.num_slots();
    let mut i: usize = 0;
    while i < n
        invariant
            forall|k: int|
                0 <= k < constraints@.len() ==> constraint_wf(#[trigger] constraints@[k]),
            n == set.arena.slot_count(),
            0 <= i <= n,
            set.wf(),
            set.arena.slot_count() == pre.arena.slot_count(),
            forall|j: int|
                0 <= j < n ==> #[trigger] set.arena.occ(j) == pre.arena.occ(j),
            forall|j: int|
                0 <= j < n ==> #[trigger] set.arena.gen_at(j) == pre.arena.gen_at(j),
            forall|j: int|
                #[trigger] pre.arena.occ(j) && j < i ==> set.arena.val_at(j) == constrained_all(
                    pre.arena.val_at(j),
                    constraints@,
                    constraints@.len() as int,
                ),
            forall|j: int|
                #[trigger] pre.arena.occ(j) && j >= i ==> set.arena.val_at(j) == pre.arena.val_at(
                    j,
                ),
        decreases n - i,
    {
        let ghost cur = *set;
        let occupied = match set.arena.get_slot(i) {
            Some(_) => true,
            None => false,
        };
        if occupied {
            let body = set.arena.borrow_slot_mut(i);
            let ghost b0 = *body;
            let m = constraints.len();
            let mut k: usize = 0;
            while k < m
                invariant
                    m == constraints@.len(),
                    0 <= k <= m,
                    forall|q: int|
                        0 <= q < constraints@.len() ==> constraint_wf(#[trigger] constraints@[q]),
                    body_wf(*body),
                    *body == constrained_all(b0, constraints@, k as int),
                decreases m - k,
            {
                constrain_body(body, &constraints[k]);
                k = k + 1;
            }
            proof {
                assert(b0 == pre.arena.val_at(i as int));
                assert(set.arena.val_at(i as int) == constrained_all(
                    pre.arena.val_at(i as int),
                    constraints@,
                    constraints@.len() as int,
                ));
                assert forall|j: int| 0 <= j < n implies #[trigger] set.arena.occ(j)
                    == pre.arena.occ(j) by {
                    assert(set.arena.occ(j) == cur.arena.occ(j));
                    assert(cur.arena.occ(j) == pre.arena.occ(j));
                }
                assert forall|j: int| 0 <= j < n implies #[trigger] set.arena.gen_at(j)
                    == pre.arena.gen_at(j) by {
                    assert(set.arena.occ(j) == cur.arena.occ(j));
                    assert(set.arena.gen_at(j) == cur.arena.gen_at(j));
                    assert(cur.arena.gen_at(j) == pre.arena.gen_at(j));
                }
                assert forall|j: int|
                    #[trigger] pre.arena.occ(j) && j != i implies set.arena.val_at(j)
                    == cur.arena.val_at(j) by {
                    assert(set.arena.occ(j) == cur.arena.occ(j));
                    assert(cur.arena.occ(j));
                }
            }
        }
        i = i + 1;
    }
}

/// Refresh every collider's cached world pose from its parent body:
/// offset added to the parent position, rotation carried over.
#[verifier::rlimit(100)]
fn collider_sync(cols: &mut ColliderSet, set: &RigidBodySet)
    requires
        old(cols).wf(),
        set.wf(),
    ensures
        final(cols).wf(),
        final(cols).arena.slot_count() == old(cols).arena.slot_count(),
        forall|j: int|
            0 <= j < final(cols).arena.slot_count() ==> #[trigger] final(cols).arena.occ(j)
                == old(cols).arena.occ(j),
        forall|j: int|
            0 <= j < final(cols).arena.slot_count() ==> #[trigger] final(cols).arena.gen_at(j)
                == old(cols).arena.gen_at(j),
        forall|j: int|
            #[trigger] old(cols).arena.occ(j) ==> final(cols).arena.val_at(j) == (Collider {
                absolute_transform: final(cols).arena.val_at(j).absolute_transform,
                ..old(cols).arena.val_at(j)
            }),
        // a collider with a live parent gets the parent's pose plus its
        // own offset; any other collider keeps its cached pose
        forall|j: int|
            #[trigger] old(cols).arena.occ(j) ==> {
                let c = old(cols).arena.val_at(j);
                match c.parent {
                    Some(p) => {
                        &&& (set.arena.valid(p.0) ==> final(cols).arena.val_at(
                            j,
                        ).absolute_transform == (crate::body::Transform2 {
                            translation: Vec2 {
                                x: clamp_s(set.arena.at(p.0).position@.x + c.offset@.x) as i64,
                                y: clamp_s(set.arena.at(p.0).position@.y + c.offset@.y) as i64,
                            },
                            rotation: set.arena.at(p.0).rotation,
                        }))
                        &&& (!set.arena.valid(p.0) ==> final(cols).arena.val_at(j) == c)
                    },
                    None => final(cols).arena.val_at(j) == c,
                }
            },
{
    let ghost pre = *cols;
    let n = cols.arena.num_slots();
    let mut i: usize = 0;
    while i < n
        invariant
            set.wf(),
            n == cols.arena.slot_count(),
            0 <= i <= n,
            cols.wf(),
            cols.arena.slot_count() == pre.arena.slot_count(),
            forall|j: int|
                0 <= j < n ==> #[trigger] cols.arena.occ(j) == pre.arena.occ(j),
            forall|j: int|
                0 <= j < n ==> #[trigger] cols.arena.gen_at(j) == pre.arena.gen_at(j),
            forall|j: int|
                #[trigger] pre.arena.occ(j) ==> cols.arena.val_at(j) == (Collider {
                    absolute_transform: cols.arena.val_at(j).absolute_transform,
                    ..pre.arena.val_at(j)
                }),
            forall|j: int|
                #[trigger] pre.arena.occ(j) && j < i ==> {
                    let c = pre.arena.val_at(j);
                    match c.parent {
                        Some(p) => {
                            &&& (set.arena.valid(p.0) ==> cols.arena.val_at(
                                j,
                            ).absolute_transform == (crate::body::Transform2 {
                                translation: Vec2 {
                                    x: clamp_s(
                                        set.arena.at(p.0).position@.x + c.offset@.x,
                                    ) as i64,
                                    y: clamp_s(
                                        set.arena.at(p.0).position@.y + c.offset@.y,
                                    ) as i64,
                                },
                                rotation: set.arena.at(p.0).rotation,
                            }))
                            &&& (!set.arena.valid(p.0) ==> cols.arena.val_at(j) == c)
                        },
                        None => cols.arena.val_at(j) == c,
                    }
                },
            forall|j: int|
                #[trigger] pre.arena.occ(j) && j >= i ==> cols.arena.val_at(j)
                    == pre.arena.val_at(j),
        decreases n - i,
    {
        let ghost cur = *cols;
        let parent = match cols.arena.get_slot(i) {
            Some(c) => c.parent,
            None => None,
        };
        match parent {
            Some(p) => {
                let pose = match set.get(p) {
                    Some(b) => Some((b.position, b.rotation)),
                    None => None,
                };
                match pose {
                    Some((ppos, prot)) => {
                        let col = cols.arena.borrow_slot_mut(i);
                        let t = v2_clamp(v2_add(ppos, col.offset));
                        col.absolute_transform = crate::body::Transform2 {
                            translation: t,
                            rotation: prot,
                        };
                        proof {
                            assert(cols.arena.val_at(i as int) == (Collider {
                                absolute_transform: crate::body::Transform2 {
                                    translation: t,
                                    rotation: prot,
                                },
                                ..cur.arena.val_at(i as int)
                            }));
                            assert forall|j: int|
                                #[trigger] pre.arena.occ(j) && j != i implies cols.arena.val_at(
                                j,
                            ) == cur.arena.val_at(j) by {
                                assert(cols.arena.occ(j) == cur.arena.occ(j));
                                assert(cur.arena.occ(j));
                            }
                            assert forall|j: int| 0 <= j < n implies #[trigger] cols.arena.occ(j)
                                == pre.arena.occ(j) by {
                                assert(cols.arena.occ(j) == cur.arena.occ(j));
                                assert(cur.arena.occ(j) == pre.arena.occ(j));
                            }
                            assert forall|j: int| 0 <= j < n implies #[trigger] cols
                                .arena.gen_at(j) == pre.arena.gen_at(j) by {
                                assert(cols.arena.occ(j) == cur.arena.occ(j));
                                assert(cols.arena.gen_at(j) == cur.arena.gen_at(j));
                                assert(cur.arena.gen_at(j) == pre.arena.gen_at(j));
                            }
                            assert forall|j: int| #[trigger] pre.arena.occ(j) implies cols
                                .arena.val_at(j) == (Collider {
                                absolute_transform: cols.arena.val_at(j).absolute_transform,
                                ..pre.arena.val_at(j)
                            }) by {
                                assert(cur.arena.occ(j));
                                assert(cols.arena.occ(j));
                                if j != i {
                                    assert(cols.arena.val_at(j) == cur.arena.val_at(j));
                                }
                            }
                        }
                    },
                    None => {},
                }
            },
            None => {},
        }
        i = i + 1;
    }
}

impl Physics {
    /// Apply every registered spring's force to its endpoint bodies.
    pub fn apply_springs(&mut self)
        requires
            old(self).wf(),
        ensures
            final(self).wf(),
            *final(self) == (Physics { rbd_set: final(self).rbd_set, ..*old(self) }),
            final(self).rbd_set.arena.slot_count() == old(self).rbd_set.arena.slot_count(),
            forall|j: int|
                0 <= j < final(self).rbd_set.arena.slot_count() ==> #[trigger] final(self).rbd_set.arena.occ(j) == old(self).rbd_set.arena.occ(j),
            forall|j: int|
                0 <= j < final(self).rbd_set.arena.slot_count() ==> #[trigger] final(self).rbd_set.arena.gen_at(j) == old(self).rbd_set.arena.gen_at(j),
            forall|j: int|
                #[trigger] old(self).rbd_set.arena.occ(j) ==> same_but_accel(
                    final(self).rbd_set.arena.val_at(j),
                    old(self).rbd_set.arena.val_at(j),
                ),
            forall|h2: Index|
                final(self).rbd_set.arena.valid(h2) <==> old(self).rbd_set.arena.valid(h2),
            // the whole pass: every spring applied once, in ascending
            // slot order, each application exact per `spring_apply_s`
            bodies_view(final(self).rbd_set) == crate::springs::springs_fold_s(
                old(self).springs,
                old(self).rbd_set,
                bodies_view(old(self).rbd_set),
                old(self).springs.slot_count(),
            ),
    {
        let ghost pre = *self;
        springs_pass(&self.springs, &mut self.rbd_set);
        proof {
            self.lemma_wf_after_body_pass(pre);
        }
    }

    /// Resolve every unordered collider pair by brute force, pushing a
    /// collision event for each overlapping pair.  Bodies that are not
    /// dynamic never move.
    pub fn brute_force_collisions(&mut self)
        requires
            old(self).wf(),
        ensures
            final(self).wf(),
            *final(self) == (Physics {
                rbd_set: final(self).rbd_set,
                collision_events: final(self).collision_events,
                ..*old(self)
            }),
            final(self).rbd_set.arena.slot_count() == old(self).rbd_set.arena.slot_count(),
            forall|j: int|
                0 <= j < final(self).rbd_set.arena.slot_count() ==> #[trigger] final(self).rbd_set.arena.occ(j) == old(self).rbd_set.arena.occ(j),
            forall|j: int|
                0 <= j < final(self).rbd_set.arena.slot_count() ==> #[trigger] final(self).rbd_set.arena.gen_at(j) == old(self).rbd_set.arena.gen_at(j),
            forall|j: int|
                #[trigger] old(self).rbd_set.arena.occ(j) ==> same_but_position(
                    final(self).rbd_set.arena.val_at(j),
                    old(self).rbd_set.arena.val_at(j),
                ),
            forall|j: int|
                #[trigger] old(self).rbd_set.arena.occ(j) && old(self).rbd_set.arena.val_at(
                    j,
                ).body_type != RigidBodyType::Dynamic ==> final(self).rbd_set.arena.val_at(
                    j,
                ).position == old(self).rbd_set.arena.val_at(j).position,
            forall|h2: Index|
                final(self).rbd_set.arena.valid(h2) <==> old(self).rbd_set.arena.valid(h2),
            final(self).collision_events@.len() >= old(self).collision_events@.len(),
            final(self).collision_events@.subrange(
                0,
                old(self).collision_events@.len() as int,
            ) == old(self).collision_events@,
            // the whole pass: every unordered collider pair once, in
            // ascending slot order, each resolved exactly per
            // `collide_step_s`
            (PassState {
                bodies: bodies_view(final(self).rbd_set),
                events: final(self).collision_events@,
            }) == brute_fold_s(
                old(self).col_set,
                old(self).rbd_set,
                PassState {
                    bodies: bodies_view(old(self).rbd_set),
                    events: old(self).collision_events@,
                },
                old(self).col_set.arena.slot_count(),
            ),
    {
        let ghost pre = *self;
        brute_pass(&self.col_set, &mut self.rbd_set, &mut self.collision_events);
        proof {
            self.lemma_wf_after_body_pass(pre);
        }
    }

    /// Resolve collisions through the spatial hash: candidates come from
    /// a broad-phase query around each collider's parent body.
    pub fn spatial_collisions(&mut self)
        requires
            old(self).wf(),
        ensures
            final(self).wf(),
            *final(self) == (Physics {
                rbd_set: final(self).rbd_set,
                collision_events: final(self).collision_events,
                ..*old(self)
            }),
            forall|j: int|
                #[trigger] old(self).rbd_set.arena.occ(j) ==> same_but_position(
                    final(self).rbd_set.arena.val_at(j),
                    old(self).rbd_set.arena.val_at(j),
                ),
            final(self).rbd_set.arena.slot_count() == old(self).rbd_set.arena.slot_count(),
            forall|j: int|
                0 <= j < final(self).rbd_set.arena.slot_count() ==> #[trigger] final(self).rbd_set.arena.occ(j) == old(self).rbd_set.arena.occ(j),
            forall|j: int|
                0 <= j < final(self).rbd_set.arena.slot_count() ==> #[trigger] final(self).rbd_set.arena.gen_at(j) == old(self).rbd_set.arena.gen_at(j),
            forall|j: int|
                #[trigger] old(self).rbd_set.arena.occ(j) && old(self).rbd_set.arena.val_at(
                    j,
                ).body_type != RigidBodyType::Dynamic ==> final(self).rbd_set.arena.val_at(
                    j,
                ).position == old(self).rbd_set.arena.val_at(j).position,
            forall|h2: Index|
                final(self).rbd_set.arena.valid(h2) <==> old(self).rbd_set.arena.valid(h2),
            // the whole pass: some sequence of ordered candidate pairs
            // from the broad phase, each resolved exactly per
            // `collide_step_s`
            exists|ps: Seq<(int, int)>|
                {
                    &&& (PassState {
                        bodies: bodies_view(final(self).rbd_set),
                        events: final(self).collision_events@,
                    }) == pairs_fold_s(
                        old(self).col_set,
                        old(self).rbd_set,
                        PassState {
                            bodies: bodies_view(old(self).rbd_set),
                            events: old(self).collision_events@,
                        },
                        ps,
                        ps.len() as int,
                    )
                    &&& forall|q: int|
                        0 <= q < ps.len() ==> 0 <= (#[trigger] ps[q]).0 && ps[q].1 > ps[q].0
                            && ps[q].1 < old(self).col_set.arena.slot_count()
                },
    {
        let ghost pre = *self;
        spatial_pass(
            &self.col_set,
            &mut self.rbd_set,
            &self.spatial_hash,
            &mut self.collision_events,
        );
        proof {
            self.lemma_wf_after_body_pass(pre);
        }
    }

    /// Run the configured number of joint-solver iterations over every
    /// joint.  Static bodies keep their positions.
    pub fn solve_fixed_joints(&mut self, dt: i64)
        requires
            old(self).wf(),
            1 <= dt <= FX_ONE,
        ensures
            final(self).wf(),
            *final(self) == (Physics { rbd_set: final(self).rbd_set, ..*old(self) }),
            final(self).rbd_set.arena.slot_count() == old(self).rbd_set.arena.slot_count(),
            forall|j: int|
                0 <= j < final(self).rbd_set.arena.slot_count() ==> #[trigger] final(self).rbd_set.arena.occ(j) == old(self).rbd_set.arena.occ(j),
            forall|j: int|
                0 <= j < final(self).rbd_set.arena.slot_count() ==> #[trigger] final(self).rbd_set.arena.gen_at(j) == old(self).rbd_set.arena.gen_at(j),
            forall|j: int|
                #[trigger] old(self).rbd_set.arena.occ(j) ==> same_but_pose(
                    final(self).rbd_set.arena.val_at(j),
                    old(self).rbd_set.arena.val_at(j),
                ),
            forall|j: int|
                #[trigger] old(self).rbd_set.arena.occ(j) && old(self).rbd_set.arena.val_at(
                    j,
                ).body_type != RigidBodyType::Dynamic ==> final(self).rbd_set.arena.val_at(
                    j,
                ).position == old(self).rbd_set.arena.val_at(j).position,
            forall|h2: Index|
                final(self).rbd_set.arena.valid(h2) <==> old(self).rbd_set.arena.valid(h2),
            // the whole pass: the configured number of Gauss-Seidel
            // iterations, each visiting every joint slot in ascending
            // order, each visit exact per `joint_step_s`
            bodies_view(final(self).rbd_set) == joints_fold_s(
                old(self).joints,
                old(self).rbd_set,
                bodies_view(old(self).rbd_set),
                old(self).joint_iterations as int,
                dt as int,
            ),
    {
        let ghost pre = *self;
        let iterations = self.joint_iterations;
        joints_pass(&self.joints, &mut self.rbd_set, iterations, dt);
        proof {
            self.lemma_wf_after_body_pass(pre);
        }
    }

    /// Integrate every body one substep (semi-implicit Verlet), re-sync
    /// the spatial index, and refresh collider world transforms.
    pub fn update_objects(&mut self, dt: i64)
        requires
            old(self).wf(),
            1 <= dt <= FX_ONE,
        ensures
            final(self).wf(),
            *final(self) == (Physics {
                rbd_set: final(self).rbd_set,
                spatial_hash: final(self).spatial_hash,
                col_set: final(self).col_set,
                ..*old(self)
            }),
            final(self).rbd_set.arena.slot_count() == old(self).rbd_set.arena.slot_count(),
            forall|j: int|
                0 <= j < final(self).rbd_set.arena.slot_count() ==> #[trigger] final(self).rbd_set.arena.occ(j) == old(self).rbd_set.arena.occ(j),
            forall|j: int|
                0 <= j < final(self).rbd_set.arena.slot_count() ==> #[trigger] final(self).rbd_set.arena.gen_at(j) == old(self).rbd_set.arena.gen_at(j),
            forall|j: int|
                #[trigger] old(self).rbd_set.arena.occ(j) ==> final(self).rbd_set.arena.val_at(j)
                    == verlet_applied(old(self).rbd_set.arena.val_at(j), dt as int),
            forall|j: int|
                #[trigger] final(self).rbd_set.arena.occ(j)
                    ==> final(self).spatial_hash.points_s().contains_key(
                    slot_bits(final(self).rbd_set, j) as u64,
                ) && final(self).spatial_hash.points_s()[slot_bits(
                    final(self).rbd_set,
                    j,
                ) as u64].position == final(self).rbd_set.arena.val_at(j).position,
            forall|h2: Index|
                final(self).rbd_set.arena.valid(h2) <==> old(self).rbd_set.arena.valid(h2),
            // every collider's cached pose is refreshed from its (just
            // integrated) parent: position plus offset, angle carried
            forall|j: int|
                #[trigger] old(self).col_set.arena.occ(j) ==> {
                    let c = old(self).col_set.arena.val_at(j);
                    match c.parent {
                        Some(p) => {
                            &&& (final(self).rbd_set.arena.valid(p.0) ==> final(self).col_set.arena.val_at(j).absolute_transform == (
                            crate::body::Transform2 {
                                translation: Vec2 {
                                    x: clamp_s(
                                        final(self).rbd_set.arena.at(p.0).position@.x
                                            + c.offset@.x,
                                    ) as i64,
                                    y: clamp_s(
                                        final(self).rbd_set.arena.at(p.0).position@.y
                                            + c.offset@.y,
                                    ) as i64,
                                },
                                rotation: final(self).rbd_set.arena.at(p.0).rotation,
                            }))
                            &&& (!final(self).rbd_set.arena.valid(p.0) ==> final(self).col_set.arena.val_at(j) == c)
                        },
                        None => final(self).col_set.arena.val_at(j) == c,
                    }
                },
    {
        let ghost pre = *self;
        integrate_bodies(&mut self.rbd_set, &mut self.spatial_hash, dt);
        proof {
            assert forall|i: int|
                #[trigger] self.rbd_set.arena.occ(i) implies self.spatial_hash.points_s()
                .contains_key(slot_bits(self.rbd_set, i) as u64) by {
                assert(pre.rbd_set.arena.occ(i));
                assert(slot_bits(self.rbd_set, i) == slot_bits(pre.rbd_set, i));
                assert(pre.spatial_hash.points_s().contains_key(
                    slot_bits(pre.rbd_set, i) as u64,
                ));
                assert(self.spatial_hash.points_s().dom() == pre.spatial_hash.points_s().dom());
            }
            assert forall|id: u64|
                #[trigger] self.spatial_hash.points_s().contains_key(id) implies {
                &&& self.rbd_set.arena.occ((id as int) % 0x1_0000_0000)
                &&& self.rbd_set.arena.gen_at((id as int) % 0x1_0000_0000) == (id as int)
                    / 0x1_0000_0000
            } by {
                assert(pre.spatial_hash.points_s().contains_key(id));
                assert(pre.rbd_set.arena.occ((id as int) % 0x1_0000_0000));
            }
        }
        collider_sync(&mut self.col_set, &self.rbd_set);
    }

    /// Clamp every dynamic body to every registered boundary constraint,
    /// in registration order.
    pub fn apply_constraints(&mut self)
        requires
            old(self).wf(),
        ensures
            final(self).wf(),
            *final(self) == (Physics { rbd_set: final(self).rbd_set, ..*old(self) }),
            final(self).rbd_set.arena.slot_count() == old(self).rbd_set.arena.slot_count(),
            forall|j: int|
                0 <= j < final(self).rbd_set.arena.slot_count() ==> #[trigger] final(self).rbd_set.arena.occ(j) == old(self).rbd_set.arena.occ(j),
            forall|j: int|
                0 <= j < final(self).rbd_set.arena.slot_count() ==> #[trigger] final(self).rbd_set.arena.gen_at(j) == old(self).rbd_set.arena.gen_at(j),
            forall|j: int|
                #[trigger] old(self).rbd_set.arena.occ(j) ==> final(self).rbd_set.arena.val_at(j)
                    == constrained_all(
                    old(self).rbd_set.arena.val_at(j),
                    old(self).constraints@,
                    old(self).constraints@.len() as int,
                ),
            forall|h2: Index|
                final(self).rbd_set.arena.valid(h2) <==> old(self).rbd_set.arena.valid(h2),
    {
        let ghost pre = *self;
        constraints_pass(&mut self.rbd_set, &self.constraints);
        proof {
            self.lemma_wf_after_body_pass(pre);
        }
    }

    /// One fixed timestep: gravity, springs, collision resolution (brute
    /// force or spatial, per the engine flag), joint solving, Verlet
    /// integration with spatial re-sync, then boundary constraints —
    /// `substeps` times at `delta / substeps` each.  The order is kept
    /// exactly; it determines stability.
    pub fn integrate(&mut self, substeps: u32, delta: i64)
        requires
            old(self).wf(),
            substeps >= 1,
            substeps as int <= delta as int,
            delta <= FX_ONE,
        ensures
            final(self).wf(),
            final(self).substeps == old(self).substeps,
            final(self).accumulator == old(self).accumulator,
            final(self).time == old(self).time,
            final(self).constraints == old(self).constraints,
            final(self).joints == old(self).joints,
            final(self).springs == old(self).springs,
            final(self).gravity == old(self).gravity,
            forall|h2: Index|
                final(self).rbd_set.arena.valid(h2) <==> old(self).rbd_set.arena.valid(h2),
            final(self).rbd_set.arena.slot_count() == old(self).rbd_set.arena.slot_count(),
            forall|j: int|
                0 <= j < final(self).rbd_set.arena.slot_count() ==> #[trigger] final(self).rbd_set.arena.occ(j) == old(self).rbd_set.arena.occ(j),
            forall|j: int|
                #[trigger] old(self).rbd_set.arena.occ(j) ==> final(self).rbd_set.arena.val_at(
                    j,
                ).body_type == old(self).rbd_set.arena.val_at(j).body_type,
            // a static body never moves, whatever ran
            forall|j: int|
                #[trigger] old(self).rbd_set.arena.occ(j) && old(self).rbd_set.arena.val_at(
                    j,
                ).body_type == RigidBodyType::Static ==> final(self).rbd_set.arena.val_at(
                    j,
                ).position == old(self).rbd_set.arena.val_at(j).position,
            // every substep ends with the Verlet reset: accumulators
            // cleared, pending velocity requests consumed
            forall|j: int|
                #[trigger] final(self).rbd_set.arena.occ(j) ==> final(self).rbd_set.arena.val_at(
                    j,
                ).acceleration == (Vec2 { x: 0i64, y: 0i64 }),
            forall|j: int|
                #[trigger] final(self).rbd_set.arena.occ(j) && final(self).rbd_set.arena.val_at(
                    j,
                ).body_type == RigidBodyType::Dynamic ==> final(self).rbd_set.arena.val_at(
                    j,
                ).velocity_request is None,
            // and with every dynamic body inside the last registered
            // boundary constraint
            old(self).constraints@.len() >= 1 ==> forall|j: int|
                #[trigger] final(self).rbd_set.arena.occ(j) && final(self).rbd_set.arena.val_at(
                    j,
                ).body_type == RigidBodyType::Dynamic ==> crate::spatial::dist_sq(
                    final(self).rbd_set.arena.val_at(j).position@,
                    old(self).constraints@[old(self).constraints@.len() - 1].position@,
                ) <= old(self).constraints@[old(self).constraints@.len() - 1].radius * old(self).constraints@[old(self).constraints@.len() - 1].radius,
    {
        let ghost pre = *self;
        proof {
            vstd::arithmetic::div_mod::lemma_div_is_ordered(
                substeps as int,
                delta as int,
                substeps as int,
            );
            vstd::arithmetic::div_mod::lemma_div_basics(substeps as int);
            vstd::arithmetic::div_mod::lemma_div_nonincreasing(delta as int, substeps as int);
        }
        let step_delta = tdiv64(delta, substeps as i64);
        let mut s: u32 = 0;
        while s < substeps
            invariant
                s <= substeps,
                self.wf(),
                1 <= step_delta <= FX_ONE,
                self.substeps == pre.substeps,
                self.accumulator == pre.accumulator,
                self.time == pre.time,
                self.constraints == pre.constraints,
                self.joints == pre.joints,
                self.springs == pre.springs,
                self.gravity == pre.gravity,
                self.use_spatial_hash == pre.use_spatial_hash,
                self.collisions_enabled == pre.collisions_enabled,
                self.joint_iterations == pre.joint_iterations,
                forall|h2: Index|
                    self.rbd_set.arena.valid(h2) <==> pre.rbd_set.arena.valid(h2),
                self.rbd_set.arena.slot_count() == pre.rbd_set.arena.slot_count(),
                forall|j: int|
                    0 <= j < self.rbd_set.arena.slot_count() ==> #[trigger] self.rbd_set.arena.occ(
                        j,
                    ) == pre.rbd_set.arena.occ(j),
                forall|j: int|
                    #[trigger] pre.rbd_set.arena.occ(j) && pre.rbd_set.arena.val_at(j).body_type
                        == RigidBodyType::Static ==> self.rbd_set.arena.val_at(j).position
                        == pre.rbd_set.arena.val_at(j).position && self.rbd_set.arena.val_at(
                        j,
                    ).body_type == RigidBodyType::Static,
                forall|j: int|
                    #[trigger] pre.rbd_set.arena.occ(j) ==> self.rbd_set.arena.val_at(
                        j,
                    ).body_type == pre.rbd_set.arena.val_at(j).body_type,
                s >= 1 ==> forall|j: int|
                    #[trigger] self.rbd_set.arena.occ(j) ==> self.rbd_set.arena.val_at(
                        j,
                    ).acceleration == (Vec2 { x: 0i64, y: 0i64 }),
                s >= 1 ==> forall|j: int|
                    #[trigger] self.rbd_set.arena.occ(j) && self.rbd_set.arena.val_at(
                        j,
                    ).body_type == RigidBodyType::Dynamic ==> self.rbd_set.arena.val_at(
                        j,
                    ).velocity_request is None,
                s >= 1 && pre.constraints@.len() >= 1 ==> forall|j: int|
                    #[trigger] self.rbd_set.arena.occ(j) && self.rbd_set.arena.val_at(
                        j,
                    ).body_type == RigidBodyType::Dynamic ==> crate::spatial::dist_sq(
                        self.rbd_set.arena.val_at(j).position@,
                        pre.constraints@[pre.constraints@.len() - 1].position@,
                    ) <= pre.constraints@[pre.constraints@.len() - 1].radius * pre.constraints@[
                        pre.constraints@.len() - 1
                    ].radius,
            decreases substeps - s,
        {
            let ghost m0 = *self;
            self.apply_gravity();
            let ghost m1 = *self;
            self.apply_springs();
            let ghost m2 = *self;
            if self.collisions_enabled {
                if self.use_spatial_hash {
                    self.spatial_collisions();
                } else {
                    self.brute_force_collisions();
                }
            }
            let ghost m3 = *self;
            self.solve_fixed_joints(step_delta);
            let ghost m4 = *self;
            self.update_objects(step_delta);
            let ghost m5 = *self;
            self.apply_constraints();
            proof {
                assert forall|h2: Index|
                    self.rbd_set.arena.valid(h2) <==> pre.rbd_set.arena.valid(h2) by {
                    assert(self.rbd_set.arena.valid(h2) <==> m5.rbd_set.arena.valid(h2));
                    assert(m5.rbd_set.arena.valid(h2) <==> m4.rbd_set.arena.valid(h2));
                    assert(m4.rbd_set.arena.valid(h2) <==> m3.rbd_set.arena.valid(h2));
                    assert(m3.rbd_set.arena.valid(h2) <==> m2.rbd_set.arena.valid(h2));
                    assert(m2.rbd_set.arena.valid(h2) <==> m1.rbd_set.arena.valid(h2));
                    assert(m1.rbd_set.arena.valid(h2) <==> m0.rbd_set.arena.valid(h2));
                    assert(m0.rbd_set.arena.valid(h2) <==> pre.rbd_set.arena.valid(h2));
                }
                assert forall|j: int|
                    0 <= j < self.rbd_set.arena.slot_count() implies #[trigger] self
                    .rbd_set.arena.occ(j) == pre.rbd_set.arena.occ(j) by {
                    assert(self.rbd_set.arena.occ(j) == m5.rbd_set.arena.occ(j));
                    assert(m5.rbd_set.arena.occ(j) == m4.rbd_set.arena.occ(j));
                    assert(m4.rbd_set.arena.occ(j) == m3.rbd_set.arena.occ(j));
                    assert(m3.rbd_set.arena.occ(j) == m2.rbd_set.arena.occ(j));
                    assert(m2.rbd_set.arena.occ(j) == m1.rbd_set.arena.occ(j));
                    assert(m1.rbd_set.arena.occ(j) == m0.rbd_set.arena.occ(j));
                    assert(m0.rbd_set.arena.occ(j) == pre.rbd_set.arena.occ(j));
                }
                assert forall|j: int| #[trigger] pre.rbd_set.arena.occ(j) implies {
                    &&& self.rbd_set.arena.val_at(j).body_type == pre.rbd_set.arena.val_at(
                        j,
                    ).body_type
                    &&& (pre.rbd_set.arena.val_at(j).body_type == RigidBodyType::Static
                        ==> self.rbd_set.arena.val_at(j).position == pre.rbd_set.arena.val_at(
                        j,
                    ).position)
                    &&& self.rbd_set.arena.val_at(j).acceleration == (Vec2 { x: 0i64, y: 0i64 })
                    &&& (self.rbd_set.arena.val_at(j).body_type == RigidBodyType::Dynamic
                        ==> self.rbd_set.arena.val_at(j).velocity_request is None)
                } by {
                    assert(m0.rbd_set.arena.occ(j) && m1.rbd_set.arena.occ(j)
                        && m2.rbd_set.arena.occ(j) && m3.rbd_set.arena.occ(j)
                        && m4.rbd_set.arena.occ(j) && m5.rbd_set.arena.occ(j)
                        && self.rbd_set.arena.occ(j));
                    let b0 = m0.rbd_set.arena.val_at(j);
                    let b1 = m1.rbd_set.arena.val_at(j);
                    let b2 = m2.rbd_set.arena.val_at(j);
                    let b3 = m3.rbd_set.arena.val_at(j);
                    let b4 = m4.rbd_set.arena.val_at(j);
                    let b5 = m5.rbd_set.arena.val_at(j);
                    let bf = self.rbd_set.arena.val_at(j);
                    assert(b1 == gravity_applied(b0, m0.gravity@));
                    assert(same_but_accel(b2, b1));
                    assert(same_but_position(b3, b2) || same_but_pose(b3, b2) || b3 == b2);
                    assert(same_but_pose(b4, b3));
                    assert(b5 == verlet_applied(b4, step_delta as int));
                    assert(bf == constrained_all(
                        b5,
                        m5.constraints@,
                        m5.constraints@.len() as int,
                    ));
                    lemma_constrained_all_frame(b5, m5.constraints@, m5.constraints@.len() as int);
                    if b5.body_type != RigidBodyType::Dynamic {
                        lemma_constrained_all_nondyn(
                            b5,
                            m5.constraints@,
                            m5.constraints@.len() as int,
                        );
                    }
                }
                if pre.constraints@.len() >= 1 {
                    assert forall|j: int|
                        #[trigger] self.rbd_set.arena.occ(j) && self.rbd_set.arena.val_at(
                            j,
                        ).body_type == RigidBodyType::Dynamic implies crate::spatial::dist_sq(
                        self.rbd_set.arena.val_at(j).position@,
                        pre.constraints@[pre.constraints@.len() - 1].position@,
                    ) <= pre.constraints@[pre.constraints@.len() - 1].radius * pre.constraints@[
                        pre.constraints@.len() - 1
                    ].radius by {
                        assert(m5.rbd_set.arena.occ(j) && pre.rbd_set.arena.occ(j));
                        let b5 = m5.rbd_set.arena.val_at(j);
                        let bf = self.rbd_set.arena.val_at(j);
                        assert(bf == constrained_all(
                            b5,
                            m5.constraints@,
                            m5.constraints@.len() as int,
                        ));
                        lemma_constrained_all_frame(
                            b5,
                            m5.constraints@,
                            m5.constraints@.len() as int,
                        );
                        assert(b5.body_type == RigidBodyType::Dynamic);
                        assert(body_wf(b5));
                        lemma_constraints_contain(b5, m5.constraints@);
                    }
                }
            }
            s = s + 1;
        }
    }

    /// One caller-controlled step of `delta` ticks: one `integrate`
    /// call, then the clock advances by `delta`, saturated at the world
    /// bound.
    pub fn step(&mut self, substeps: u32, delta: i64)
        requires
            old(self).wf(),
            substeps >= 1,
            substeps as int <= delta as int,
            delta <= FX_ONE,
        ensures
            final(self).wf(),
            forall|h2: Index|
                final(self).rbd_set.arena.valid(h2) <==> old(self).rbd_set.arena.valid(h2),
            final(self).time == clamp_s(old(self).time + delta),
            final(self).accumulator == old(self).accumulator,
            final(self).substeps == old(self).substeps,
            final(self).constraints == old(self).constraints,
            forall|j: int|
                #[trigger] old(self).rbd_set.arena.occ(j) && old(self).rbd_set.arena.val_at(
                    j,
                ).body_type == RigidBodyType::Static ==> final(self).rbd_set.arena.val_at(
                    j,
                ).position == old(self).rbd_set.arena.val_at(j).position,
            forall|j: int|
                #[trigger] final(self).rbd_set.arena.occ(j) ==> final(self).rbd_set.arena.val_at(
                    j,
                ).acceleration == (Vec2 { x: 0i64, y: 0i64 }),
            old(self).constraints@.len() >= 1 ==> forall|j: int|
                #[trigger] final(self).rbd_set.arena.occ(j) && final(self).rbd_set.arena.val_at(
                    j,
                ).body_type == RigidBodyType::Dynamic ==> crate::spatial::dist_sq(
                    final(self).rbd_set.arena.val_at(j).position@,
                    old(self).constraints@[old(self).constraints@.len() - 1].position@,
                ) <= old(self).constraints@[old(self).constraints@.len() - 1].radius * old(self).constraints@[old(self).constraints@.len() - 1].radius,
    {
        self.integrate(substeps, delta);
        self.time = crate::fx::add_clamped(self.time, delta);
        proof {
            assert(self.time >= 0);
        }
    }

    /// Accumulate frame time and drain whole fixed steps from it, at
    /// most three per call: after a stall, excess time is dropped rather
    /// than simulated.  Exactly `min(gained / FIXED_DELTA, 3)` fixed
    /// steps run, where `gained` is the saturated new accumulator, and
    /// the accumulator and clock move by exactly that many deltas.
    pub fn fixed_step(&mut self, frame_time: i64)
        requires
            old(self).wf(),
            0 <= frame_time,
            old(self).substeps as int <= FIXED_DELTA as int,
        ensures
            final(self).wf(),
            forall|h2: Index|
                final(self).rbd_set.arena.valid(h2) <==> old(self).rbd_set.arena.valid(h2),
            ({
                let gained = clamp_s(old(self).accumulator + frame_time);
                let k = drained_steps_s(gained);
                &&& final(self).accumulator == gained - k * FIXED_DELTA
                &&& final(self).time == time_after_s(old(self).time as int, k)
            }),
            final(self).constraints == old(self).constraints,
            final(self).substeps == old(self).substeps,
            final(self).rbd_set.arena.slot_count() == old(self).rbd_set.arena.slot_count(),
            forall|j: int|
                0 <= j < final(self).rbd_set.arena.slot_count() ==> #[trigger] final(self).rbd_set.arena.occ(j) == old(self).rbd_set.arena.occ(j),
            forall|j: int|
                #[trigger] old(self).rbd_set.arena.occ(j) && old(self).rbd_set.arena.val_at(
                    j,
                ).body_type == RigidBodyType::Static ==> final(self).rbd_set.arena.val_at(
                    j,
                ).position == old(self).rbd_set.arena.val_at(j).position,
    {
        let ghost pre = *self;
        // unconsumed time saturates at the world bound; anything past it
        // is dropped, like any other stalled excess
        let room = FX_LIM - self.accumulator;
        let add = if frame_time > room {
            room
        } else {
            frame_time
        };
        self.accumulator = self.accumulator + add;
        let ghost gained = self.accumulator as int;
        proof {
            assert(gained == clamp_s(pre.accumulator + frame_time));
        }
        let ghost t0 = pre.time as int;
        let mut max_steps: u32 = 3;
        let ghost mut steps: int = 0;
        while self.accumulator >= FIXED_DELTA && max_steps > 0
            invariant
                self.wf(),
                self.substeps as int <= FIXED_DELTA as int,
                self.substeps == pre.substeps,
                self.constraints == pre.constraints,
                0 <= gained <= FX_LIM,
                steps == 3 - max_steps,
                0 <= steps <= 3,
                self.accumulator == gained - steps * FIXED_DELTA,
                self.time == time_after_s(t0, steps),
                forall|h2: Index|
                    self.rbd_set.arena.valid(h2) <==> pre.rbd_set.arena.valid(h2),
                self.rbd_set.arena.slot_count() == pre.rbd_set.arena.slot_count(),
                forall|j: int|
                    0 <= j < self.rbd_set.arena.slot_count() ==> #[trigger] self.rbd_set.arena.occ(
                        j,
                    ) == pre.rbd_set.arena.occ(j),
                forall|j: int|
                    #[trigger] pre.rbd_set.arena.occ(j) && pre.rbd_set.arena.val_at(j).body_type
                        == RigidBodyType::Static ==> self.rbd_set.arena.val_at(j).position
                        == pre.rbd_set.arena.val_at(j).position && self.rbd_set.arena.val_at(
                        j,
                    ).body_type == RigidBodyType::Static,
            decreases max_steps,
        {
            let ghost cur = *self;
            let substeps = self.substeps;
            self.integrate(substeps, FIXED_DELTA);
            proof {
                assert forall|h2: Index|
                    self.rbd_set.arena.valid(h2) <==> pre.rbd_set.arena.valid(h2) by {
                    assert(self.rbd_set.arena.valid(h2) <==> cur.rbd_set.arena.valid(h2));
                    assert(cur.rbd_set.arena.valid(h2) <==> pre.rbd_set.arena.valid(h2));
                }
                assert forall|j: int|
                    0 <= j < self.rbd_set.arena.slot_count() implies #[trigger] self
                    .rbd_set.arena.occ(j) == pre.rbd_set.arena.occ(j) by {
                    assert(self.rbd_set.arena.occ(j) == cur.rbd_set.arena.occ(j));
                    assert(cur.rbd_set.arena.occ(j) == pre.rbd_set.arena.occ(j));
                }
                assert forall|j: int|
                    #[trigger] pre.rbd_set.arena.occ(j) && pre.rbd_set.arena.val_at(j).body_type
                        == RigidBodyType::Static implies self.rbd_set.arena.val_at(j).position
                    == pre.rbd_set.arena.val_at(j).position && self.rbd_set.arena.val_at(
                    j,
                ).body_type == RigidBodyType::Static by {
                    assert(cur.rbd_set.arena.occ(j));
                    assert(cur.rbd_set.arena.val_at(j).position == pre.rbd_set.arena.val_at(
                        j,
                    ).position && cur.rbd_set.arena.val_at(j).body_type
                        == RigidBodyType::Static);
                    assert(self.rbd_set.arena.val_at(j).body_type == cur.rbd_set.arena.val_at(
                        j,
                    ).body_type);
                    assert(self.rbd_set.arena.val_at(j).position == cur.rbd_set.arena.val_at(
                        j,
                    ).position);
                }
            }
            self.accumulator = self.accumulator - FIXED_DELTA;
            proof {
                assert(self.accumulator >= 0);
            }
            self.time = crate::fx::add_clamped(self.time, FIXED_DELTA);
            max_steps = max_steps - 1;
            proof {
                steps = steps + 1;
            }
        }
        proof {
            if max_steps == 0 {
                assert(steps == 3);
                assert(gained - 3 * FIXED_DELTA >= 0);
                vstd::arithmetic::div_mod::lemma_div_is_ordered(
                    3 * FIXED_DELTA as int,
                    gained,
                    FIXED_DELTA as int,
                );
                vstd::arithmetic::div_mod::lemma_div_multiples_vanish(3, FIXED_DELTA as int);
                assert((FIXED_DELTA as int * 3) / FIXED_DELTA as int == 3);
                assert(3 * FIXED_DELTA as int == FIXED_DELTA as int * 3);
                assert(tdiv(gained, FIXED_DELTA as int) >= 3);
                assert(drained_steps_s(gained) == 3);
            } else {
                assert(self.accumulator < FIXED_DELTA);
                vstd::arithmetic::div_mod::lemma_fundamental_div_mod_converse(
                    gained,
                    FIXED_DELTA as int,
                    steps,
                    gained - steps * FIXED_DELTA,
                );
                assert(tdiv(gained, FIXED_DELTA as int) == steps);
                assert(drained_steps_s(gained) == steps);
            }
        }
    }
}

/// Law (mass conservation): resolving two overlapping dynamic bodies of
/// equal mass moves each by exactly half the penetration depth, in
/// opposite directions along the same axis: both corrections are the
/// same vector, applied with opposite signs.
pub proof fn lemma_equal_mass_split(pa: V2i, pb: V2i, ra: int, rb: int, m: int)
    requires
        0 < m <= FX_LIM,
        0 <= ra <= FX_LIM,
        0 <= rb <= FX_LIM,
        v_len_sq(v_sub(pa, pb)) > 0,
        v_len_sq(v_sub(pa, pb)) < (ra + rb) * (ra + rb),
    ensures
        ({
            let axis = v_sub(pa, pb);
            let d = v_len(axis);
            let n = v_fxdiv(axis, d);
            let half = fx_mul_cs(0x8000, clamp_s(ra + rb - d));
            let mv = V2i { x: fx_mul_cs(half, n.x), y: fx_mul_cs(half, n.y) };
            d > 0 ==> resolve_pair_s(pa, pb, ra, rb, m, m, true, true) == (
                true,
                v_clamp(v_add(pa, mv)),
                v_clamp(v_sub(pb, mv)),
            )
        }),
{
    let axis = v_sub(pa, pb);
    let d = v_len(axis);
    if d > 0 {
        vstd::arithmetic::div_mod::lemma_fundamental_div_mod_converse(
            m * 0x1_0000,
            m + m,
            0x8000,
            0,
        );
        assert(fx_div_s(m, m + m) == 0x8000);
        assert(0x1_0000 - fx_div_s(m, m + m) == 0x8000);
    }
}

/// Law (static immovability): a static body's state is unchanged by
/// gravity, its position is unchanged by collision resolution, joint
/// solving, Verlet integration and boundary constraints, whatever the
/// other side of each interaction is.
pub proof fn lemma_static_immovable(
    b: RigidBody,
    g: V2i,
    other: V2i,
    ra: int,
    rb: int,
    ma: int,
    mb: int,
    dyn_other: bool,
    anchor_a: V2i,
    anchor_b: V2i,
    rest: int,
    rot_other: int,
    target: int,
    c: Constraint,
    dt: int,
)
    requires
        b.body_type == RigidBodyType::Static,
    ensures
        gravity_applied(b, g) == b,
        resolve_pair_s(b.position@, other, ra, rb, ma, mb, false, dyn_other).1 == b.position@,
        resolve_pair_s(other, b.position@, ra, rb, ma, mb, dyn_other, false).2 == b.position@,
        solve_joint_s(
            b.position@,
            other,
            anchor_a,
            anchor_b,
            rest,
            ma,
            mb,
            false,
            dyn_other,
            b.rotation as int,
            rot_other,
            target,
            dt,
        ).0 == b.position@,
        constrained(b, c) == b,
        verlet_applied(b, dt).position == b.position,
{
}

/// Law (joint convergence, axis-aligned case): for two equal-mass
/// dynamic bodies on a horizontal line with zero anchors, one solver
/// pass puts the pair within one tick of the rest distance.  Repeated
/// passes therefore pin the distance there, which is the Gauss-Seidel
/// convergence the solver relies on.
#[verifier::rlimit(100)]
pub proof fn lemma_joint_pass_aligned(pa: V2i, pb: V2i, rest: int, m: int, rot_a: int, rot_b: int, target: int, dt: int)
    requires
        pa.y == pb.y,
        pa.x < pb.x,
        -0x2000_0000 <= pa.x <= 0x2000_0000,
        -0x2000_0000 <= pb.x <= 0x2000_0000,
        -0x2000_0000 <= pa.y <= 0x2000_0000,
        0 <= rest <= 0x2000_0000,
        4 <= m <= FX_LIM,
        1 <= dt <= FX_ONE,
    ensures
        ({
            let r = solve_joint_s(
                pa,
                pb,
                V2i { x: 0int, y: 0int },
                V2i { x: 0int, y: 0int },
                rest,
                m,
                m,
                true,
                true,
                rot_a,
                rot_b,
                target,
                dt,
            );
            let nd = r.1.x - r.0.x;
            &&& r.0.y == pa.y
            &&& r.1.y == pb.y
            &&& rest - 1 <= nd <= rest + 1
        }),
{
    let zero = V2i { x: 0int, y: 0int };
    let wa = v_clamp(v_add(pa, zero));
    let wb = v_clamp(v_add(pb, zero));
    assert(wa == pa && wb == pb);
    let delta = v_sub(wb, wa);
    let dx = pb.x - pa.x;
    assert(delta.x == dx && delta.y == 0);
    assert(v_len_sq(delta) == dx * dx) by (nonlinear_arith)
        requires delta.x == dx && delta.y == 0 && v_len_sq(delta) == delta.x * delta.x + delta.y
            * delta.y;
    assert(crate::fx::is_sqrt(dx * dx, dx)) by (nonlinear_arith)
        requires dx > 0;
    crate::fx::lemma_sqrt_unique(dx * dx, dx);
    let d = v_len(delta);
    assert(d == dx);
    let dir = v_fxdiv(delta, d);
    vstd::arithmetic::div_mod::lemma_div_multiples_vanish(0x1_0000, d);
    assert(dir.x == tdiv(dx * 0x1_0000, d));
    assert(dx * 0x1_0000 == d * 0x1_0000) by (nonlinear_arith)
        requires dx == d;
    assert(dir.x == 0x1_0000);
    assert(dir.y == 0);
    let off = clamp_s(d - rest);
    assert(off == d - rest);
    let corr = V2i { x: fx_mul_cs(off, dir.x), y: fx_mul_cs(off, dir.y) };
    assert(off * 0x1_0000 == 0x1_0000 * off) by (nonlinear_arith);
    vstd::arithmetic::div_mod::lemma_div_multiples_vanish(off, 0x1_0000);
    assert(tdiv(off * 0x1_0000, 0x1_0000) == off) by {
        if off >= 0 {
        } else {
            assert((-off) * 0x1_0000 == -(off * 0x1_0000)) by (nonlinear_arith);
            vstd::arithmetic::div_mod::lemma_div_multiples_vanish(-off, 0x1_0000);
        }
    }
    assert(corr.x == off);
    assert(corr.y == 0);
    // both recips are equal and their sum stays below the bound, so the
    // mass ratio is exactly one half
    let rc = recip_s(m);
    assert(fx_div_s(0x1_0000, m) == tdiv(0x1_0000_0000, m));
    vstd::arithmetic::div_mod::lemma_div_is_ordered(0, 0x1_0000_0000, m);
    vstd::arithmetic::div_mod::lemma_div_is_ordered_by_denominator(0x1_0000_0000, 4, m);
    assert(0x1_0000_0000int / 4 == 0x4000_0000) by (nonlinear_arith);
    assert(0 <= tdiv(0x1_0000_0000, m) <= 0x4000_0000);
    vstd::arithmetic::div_mod::lemma_div_is_ordered_by_denominator(
        0x1_0000_0000,
        m,
        FX_LIM as int,
    );
    assert(0x1_0000_0000int / 0x8000_0000 == 2) by (nonlinear_arith);
    assert(tdiv(0x1_0000_0000, m) >= 2);
    assert(rc == tdiv(0x1_0000_0000, m));
    let inv_sum = clamp_s(rc + rc);
    assert(inv_sum == rc + rc);
    assert(inv_sum > 0);
    let ratio = fx_div_s(rc, inv_sum);
    vstd::arithmetic::div_mod::lemma_fundamental_div_mod_converse(
        rc * 0x1_0000,
        rc + rc,
        0x8000,
        0,
    );
    assert(ratio == 0x8000);
    let mva = V2i { x: fx_mul_cs(ratio, corr.x), y: fx_mul_cs(ratio, corr.y) };
    let mvb = V2i {
        x: fx_mul_cs(0x1_0000 - ratio, corr.x),
        y: fx_mul_cs(0x1_0000 - ratio, corr.y),
    };
    assert(mva == mvb);
    let half = fx_mul_cs(0x8000, corr.x);
    assert(0x8000 * corr.x == corr.x * 0x8000) by (nonlinear_arith);
    assert(mva.x == tdiv(0x8000 * off, 0x1_0000));
    assert(mva.y == 0);
    // the half move is bounded by half the offset magnitude
    crate::fx::lemma_tdiv_bound(0x8000 * off, 0x1_0000, if off >= 0 { 0x8000 * off } else { -(0x8000 * off) });
    let hm = mva.x;
    assert(off >= 0 ==> 2 * hm <= off && off <= 2 * hm + 1) by {
        if off >= 0 {
            assert(hm == (0x8000 * off) / 0x1_0000);
            vstd::arithmetic::div_mod::lemma_fundamental_div_mod(0x8000 * off, 0x1_0000);
            vstd::arithmetic::div_mod::lemma_mod_bound(0x8000 * off, 0x1_0000);
            assert(0x8000 * off == 0x1_0000 * hm + (0x8000 * off) % 0x1_0000);
            assert(2 * hm <= off && off <= 2 * hm + 1) by (nonlinear_arith)
                requires 0x8000 * off == 0x1_0000 * hm + (0x8000 * off) % 0x1_0000 && 0 <= (0x8000
                    * off) % 0x1_0000 < 0x1_0000;
        }
    }
    assert(off < 0 ==> 2 * hm >= off && off >= 2 * hm - 1) by {
        if off < 0 {
            assert(hm == -(((-(0x8000 * off))) / 0x1_0000)) by {
                assert(0x8000 * off < 0) by (nonlinear_arith)
                    requires off < 0;
                assert(-(0x8000 * off) == 0x8000 * (-off)) by (nonlinear_arith);
            }
            let mg = (-(0x8000 * off)) / 0x1_0000;
            vstd::arithmetic::div_mod::lemma_fundamental_div_mod(-(0x8000 * off), 0x1_0000);
            vstd::arithmetic::div_mod::lemma_mod_bound(-(0x8000 * off), 0x1_0000);
            assert(2 * hm >= off && off >= 2 * hm - 1) by (nonlinear_arith)
                requires hm == -mg && -(0x8000 * off) == 0x1_0000 * mg + (-(0x8000 * off))
                    % 0x1_0000 && 0 <= (-(0x8000 * off)) % 0x1_0000 < 0x1_0000;
        }
    }
    let npa = v_clamp(v_add(pa, mva));
    let npb = v_clamp(v_sub(pb, mvb));
    assert(-0x4000_0000 <= hm <= 0x4000_0000) by (nonlinear_arith)
        requires (off >= 0 ==> 2 * hm <= off && 0 <= hm) && (off < 0 ==> 2 * hm >= off && hm <= 0)
            && -0x4000_0000 <= off <= 0x4000_0000 && (off >= 0 ==> hm >= 0) && (off < 0 ==> hm
            <= 0),
    ;
    assert(npa.x == pa.x + hm && npa.y == pa.y);
    assert(npb.x == pb.x - hm && npb.y == pb.y);
    let nd = npb.x - npa.x;
    assert(nd == d - 2 * hm);
    assert(rest - 1 <= nd <= rest + 1);
}

} // verus!

//! Rigid bodies and their store.
//!
//! A body carries Verlet state (position and previous position), force and
//! torque accumulators, a body-type variant that decides how forces touch
//! it, and the handles of its colliders and joints.  Every scalar is a
//! fixed-point tick count kept within the world bound.

use crate::arena::{Arena, Index};
use crate::collider::ColliderHandle;
use crate::fx::{clamp_s, fx_div, fx_div_s, in_lim, FX_LIM, FX_ONE};
use crate::joints::JointHandle;
use crate::vec2::{
    in_lim_v, v2_add, v2_clamp, v2_perp_dot, v_add, v_clamp, v_fxdiv, v_perp_dot, V2i, Vec2,
};
use vstd::prelude::*;

verus! {

broadcast use crate::arena::lemma_occ_range;

/// The status of a body, governing the way it is affected by external
/// forces.
#[derive(Clone, Copy, PartialEq, Eq, Structural, Debug)]
pub enum RigidBodyType {
    /// Affected by all external forces.
    Dynamic,
    /// Immovable: infinite effective mass in resolution.
    Static,
    /// User-driven at the position level; pushes dynamic bodies one way,
    /// is never pushed back.
    KinematicPositionBased,
    /// User-driven at the velocity level; same one-way interaction.
    KinematicVelocityBased,
}

/// A handle to a rigid body in its store.
#[derive(Clone, Copy, PartialEq, Eq, Hash, Structural, Debug)]
pub struct RigidBodyHandle(pub Index);

/// A body's pose: where it is and how far it has turned.
#[derive(Clone, Copy, PartialEq, Eq, Structural, Debug)]
pub struct Transform2 {
    pub translation: Vec2,
    pub rotation: i64,
}

/// Per-body physical state.
pub struct RigidBody {
    pub position: Vec2,
    pub position_old: Vec2,
    pub calculated_mass: i64,
    pub gravity_mod: i64,
    /// Orientation angle, in fixed-point radians.
    pub rotation: i64,
    /// In radians per second.
    pub angular_velocity: i64,
    pub torque: i64,
    /// Moment of inertia.
    pub inertia: i64,
    pub scale: Vec2,
    pub acceleration: Vec2,
    /// A one-shot velocity request, folded into the Verlet previous
    /// position at the next integration step.
    pub velocity_request: Option<Vec2>,
    /// Velocity derived from the last integration step.
    pub calculated_velocity: Vec2,
    pub colliders: Vec<ColliderHandle>,
    pub connected_joints: Vec<JointHandle>,
    pub user_data: u128,
    pub body_type: RigidBodyType,
}

/// Every stored scalar of the body is within the world bound, and mass
/// and inertia are nonnegative.
pub open spec fn body_wf(b: RigidBody) -> bool {
    &&& in_lim_v(b.position@)
    &&& in_lim_v(b.position_old@)
    &&& 0 <= b.calculated_mass <= FX_LIM
    &&& in_lim(b.gravity_mod as int)
    &&& in_lim(b.rotation as int)
    &&& in_lim(b.angular_velocity as int)
    &&& in_lim(b.torque as int)
    &&& 0 <= b.inertia <= FX_LIM
    &&& in_lim_v(b.scale@)
    &&& in_lim_v(b.acceleration@)
    &&& match b.velocity_request {
        Some(v) => in_lim_v(v@),
        None => true,
    }
    &&& in_lim_v(b.calculated_velocity@)
}


/// The body after a force lands on it: acceleration grows by force over
/// mass, each stage saturated; a static body is untouched.
pub open spec fn with_force_applied(b: RigidBody, f: V2i) -> RigidBody {
    if b.body_type == RigidBodyType::Static {
        b
    } else {
        RigidBody {
            acceleration: Vec2 {
                x: clamp_s(
                    b.acceleration@.x + clamp_s(fx_div_s(f.x, b.calculated_mass as int)),
                ) as i64,
                y: clamp_s(
                    b.acceleration@.y + clamp_s(fx_div_s(f.y, b.calculated_mass as int)),
                ) as i64,
            },
            ..b
        }
    }
}

/// The body after an impulse lands on it: the current derived velocity
/// plus impulse over mass becomes the pending velocity request; a
/// static body is untouched.
pub open spec fn with_impulse_applied(b: RigidBody, imp: V2i) -> RigidBody {
    if b.body_type == RigidBodyType::Static {
        b
    } else {
        RigidBody {
            velocity_request: Some(
                Vec2 {
                    x: clamp_s(
                        b.calculated_velocity@.x + clamp_s(
                            fx_div_s(imp.x, b.calculated_mass as int),
                        ),
                    ) as i64,
                    y: clamp_s(
                        b.calculated_velocity@.y + clamp_s(
                            fx_div_s(imp.y, b.calculated_mass as int),
                        ),
                    ) as i64,
                },
            ),
            ..b
        }
    }
}

impl RigidBody {
    /// The body's pose.
    pub fn transform(&self) -> (r: Transform2)
        ensures
            r.translation == self.position,
            r.rotation == self.rotation,
    {
        Transform2 { translation: self.position, rotation: self.rotation }
    }

    /// The body's position.
    pub fn translation(&self) -> (r: Vec2)
        ensures
            r == self.position,
    {
        self.position
    }

    /// The body-type variant.
    pub fn body_type(&self) -> (r: RigidBodyType)
        ensures
            r == self.body_type,
    {
        self.body_type
    }

    /// Whether the body reacts to all forces.
    pub fn is_dynamic(&self) -> (r: bool)
        ensures
            r == (self.body_type == RigidBodyType::Dynamic),
    {
        self.body_type == RigidBodyType::Dynamic
    }

    /// Whether the body is user-driven.
    pub fn is_kinematic(&self) -> (r: bool)
        ensures
            r == (self.body_type == RigidBodyType::KinematicPositionBased || self.body_type
                == RigidBodyType::KinematicVelocityBased),
    {
        self.body_type == RigidBodyType::KinematicPositionBased || self.body_type
            == RigidBodyType::KinematicVelocityBased
    }

    /// Whether the body is immovable.
    pub fn is_static(&self) -> (r: bool)
        ensures
            r == (self.body_type == RigidBodyType::Static),
    {
        self.body_type == RigidBodyType::Static
    }

    /// The velocity derived from the last integration step.
    pub fn get_velocity(&self) -> (r: Vec2)
        ensures
            r == self.calculated_velocity,
    {
        self.calculated_velocity
    }

    /// Request a velocity; it takes effect at the next integration step.
    pub fn set_velocity(&mut self, velocity: Vec2)
        ensures
            *final(self) == (RigidBody { velocity_request: Some(velocity), ..*old(self) }),
    {
        self.velocity_request = Some(velocity);
    }

    /// Request the current velocity plus `velocity`, saturated at the
    /// world bound.
    pub fn add_velocity(&mut self, velocity: Vec2)
        requires
            in_lim_v(old(self).calculated_velocity@),
            in_lim_v(velocity@),
        ensures
            *final(self) == (RigidBody {
                velocity_request: Some(
                    Vec2 {
                        x: clamp_s(old(self).calculated_velocity@.x + velocity@.x) as i64,
                        y: clamp_s(old(self).calculated_velocity@.y + velocity@.y) as i64,
                    },
                ),
                ..*old(self)
            }),
    {
        let v = v2_clamp(v2_add(self.calculated_velocity, velocity));
        self.set_velocity(v);
    }

    /// Accumulate an acceleration, saturated at the world bound.
    pub fn accelerate(&mut self, a: Vec2)
        requires
            in_lim_v(old(self).acceleration@),
            in_lim_v(a@),
        ensures
            *final(self) == (RigidBody {
                acceleration: Vec2 {
                    x: clamp_s(old(self).acceleration@.x + a@.x) as i64,
                    y: clamp_s(old(self).acceleration@.y + a@.y) as i64,
                },
                ..*old(self)
            }),
    {
        self.acceleration = v2_clamp(v2_add(self.acceleration, a));
    }

    /// Apply a force: it becomes acceleration scaled by inverse mass.
    /// Static bodies ignore it.
    pub fn apply_force(&mut self, force: Vec2)
        requires
            body_wf(*old(self)),
            in_lim_v(force@),
            old(self).body_type == RigidBodyType::Static || old(self).calculated_mass > 0,
        ensures
            *final(self) == with_force_applied(*old(self), force@),
    {
        if !self.is_static() {
            let ax = fx_div(force.x, self.calculated_mass);
            let ay = fx_div(force.y, self.calculated_mass);
            let dx = crate::fx::clamp64(ax);
            let dy = crate::fx::clamp64(ay);
            self.accelerate(Vec2 { x: dx, y: dy });
        }
    }

    /// Apply an impulse: it becomes a velocity request scaled by inverse
    /// mass.  Static bodies ignore it.
    pub fn apply_impulse(&mut self, impulse: Vec2)
        requires
            body_wf(*old(self)),
            in_lim_v(impulse@),
            old(self).body_type == RigidBodyType::Static || old(self).calculated_mass > 0,
        ensures
            *final(self) == with_impulse_applied(*old(self), impulse@),
    {
        if !self.is_static() {
            proof {
                crate::fx::lemma_tdiv_bound(
                    impulse@.x * (FX_ONE as int),
                    old(self).calculated_mass as int,
                    0x8000_0000_0000,
                );
                crate::fx::lemma_tdiv_bound(
                    impulse@.y * (FX_ONE as int),
                    old(self).calculated_mass as int,
                    0x8000_0000_0000,
                );
            }
            let dx = crate::fx::clamp64(fx_div(impulse.x, self.calculated_mass));
            let dy = crate::fx::clamp64(fx_div(impulse.y, self.calculated_mass));
            self.add_velocity(Vec2 { x: dx, y: dy });
        }
    }

    /// Apply a force at a world point: the linear part through
    /// `apply_force`, plus a torque from the lever arm.  Static bodies
    /// ignore it.
    pub fn apply_force_at_point(&mut self, force: Vec2, world_point: Vec2)
        requires
            body_wf(*old(self)),
            in_lim_v(force@),
            in_lim_v(world_point@),
            old(self).body_type == RigidBodyType::Static || old(self).calculated_mass > 0,
        ensures
            old(self).body_type == RigidBodyType::Static ==> *final(self) == *old(self),
            old(self).body_type != RigidBodyType::Static ==> *final(self) == (RigidBody {
                acceleration: with_force_applied(*old(self), force@).acceleration,
                torque: clamp_s(
                    old(self).torque + clamp_s(
                        v_perp_dot(
                            v_clamp(crate::vec2::v_sub(world_point@, old(self).position@)),
                            force@,
                        ),
                    ),
                ) as i64,
                ..*old(self)
            }),
    {
        if !self.is_static() {
            self.apply_force(force);
            self.apply_torque_at_point(force, world_point);
        }
    }

    /// Apply an impulse at a world point: the linear part through
    /// `apply_impulse`, plus an angular velocity change from the lever
    /// arm over the inertia.  Static bodies ignore it.
    pub fn apply_impulse_at_point(&mut self, impulse: Vec2, world_point: Vec2)
        requires
            body_wf(*old(self)),
            in_lim_v(impulse@),
            in_lim_v(world_point@),
            old(self).body_type == RigidBodyType::Static || old(self).calculated_mass > 0,
        ensures
            old(self).body_type == RigidBodyType::Static ==> *final(self) == *old(self),
            old(self).body_type != RigidBodyType::Static ==> {
                let angular = clamp_s(
                    v_perp_dot(
                        v_clamp(crate::vec2::v_sub(world_point@, old(self).position@)),
                        impulse@,
                    ),
                );
                let dw = if old(self).inertia > 0 {
                    clamp_s(fx_div_s(angular, old(self).inertia as int))
                } else {
                    0int
                };
                *final(self) == (RigidBody {
                    angular_velocity: clamp_s(old(self).angular_velocity + dw) as i64,
                    ..with_impulse_applied(*old(self), impulse@)
                })
            },
    {
        if !self.is_static() {
            self.apply_impulse(impulse);
            let lever = v2_clamp(crate::vec2::v2_sub(world_point, self.position));
            let angular = crate::fx::clamp64(v2_perp_dot(lever, impulse));
            let dw = if self.inertia > 0 {
                crate::fx::clamp64(crate::fx::fx_div(angular, self.inertia))
            } else {
                0
            };
            let w = crate::fx::add_clamped(self.angular_velocity, dw);
            self.angular_velocity = w;
        }
    }

    /// Apply a torque from a force at a world point: the lever arm's
    /// perp-dot with the force, saturated.  Static bodies ignore it.
    pub fn apply_torque_at_point(&mut self, force: Vec2, world_point: Vec2)
        requires
            body_wf(*old(self)),
            in_lim_v(force@),
            in_lim_v(world_point@),
        ensures
            old(self).body_type == RigidBodyType::Static ==> *final(self) == *old(self),
            old(self).body_type != RigidBodyType::Static ==> *final(self) == (RigidBody {
                torque: clamp_s(
                    old(self).torque + clamp_s(
                        v_perp_dot(
                            v_clamp(crate::vec2::v_sub(world_point@, old(self).position@)),
                            force@,
                        ),
                    ),
                ) as i64,
                ..*old(self)
            }),
    {
        if !self.is_static() {
            let lever = v2_clamp(crate::vec2::v2_sub(world_point, self.position));
            let t = v2_perp_dot(lever, force);
            let t2 = crate::fx::clamp64(t);
            let nt = crate::fx::add_clamped(self.torque, t2);
            self.torque = nt;
        }
    }
}

/// The store of rigid bodies.
pub struct RigidBodySet {
    pub arena: Arena<RigidBody>,
}

impl RigidBodySet {
    /// Internal consistency of the underlying table, plus per-body
    /// bounds.
    pub open spec fn wf(self) -> bool {
        &&& self.arena.wf()
        &&& forall|i: int| #[trigger] self.arena.occ(i) ==> body_wf(self.arena.val_at(i))
    }

    /// An empty store.
    pub fn new() -> (r: RigidBodySet)
        ensures
            r.wf(),
            r.arena.slot_count() == 0,
            r.arena.length() == 0,
            forall|h: Index| !r.arena.valid(h),
    {
        RigidBodySet { arena: Arena::new() }
    }

    /// The body behind a live handle; stale handles yield `None`.
    pub fn get(&self, handle: RigidBodyHandle) -> (r: Option<&RigidBody>)
        ensures
            match r {
                Some(b) => self.arena.valid(handle.0) && *b == self.arena.at(handle.0),
                None => !self.arena.valid(handle.0),
            },
    {
        self.arena.get(handle.0)
    }

    /// Whether a handle is live.
    pub fn contains(&self, handle: RigidBodyHandle) -> (r: bool)
        ensures
            r == self.arena.valid(handle.0),
    {
        self.arena.contains(handle.0)
    }

    /// Mutable access to the body behind a live handle.
    pub fn get_mut(&mut self, handle: RigidBodyHandle) -> (r: &mut RigidBody)
        requires
            old(self).arena.wf(),
            old(self).arena.valid(handle.0),
        ensures
            *r == old(self).arena.at(handle.0),
            final(self).arena.wf(),
            final(self).arena.valid(handle.0),
            final(self).arena.at(handle.0) == *final(r),
            final(self).arena.slot_count() == old(self).arena.slot_count(),
            final(self).arena.length() == old(self).arena.length(),
            forall|i: int|
                0 <= i < final(self).arena.slot_count() && i != handle.0.slot ==> {
                    &&& #[trigger] final(self).arena.occ(i) == old(self).arena.occ(i)
                    &&& final(self).arena.gen_at(i) == old(self).arena.gen_at(i)
                    &&& (old(self).arena.occ(i) ==> final(self).arena.val_at(i) == old(self).arena.val_at(i))
                },
            final(self).arena.gen_at(handle.0.slot as int) == old(self).arena.gen_at(
                handle.0.slot as int,
            ),
            forall|h2: Index| final(self).arena.valid(h2) <==> old(self).arena.valid(h2),
    {
        self.arena.borrow_mut(handle.0)
    }

    /// Mutable access to the bodies behind two live handles at once;
    /// the handles must name different slots, so the references never
    /// alias.
    pub fn get2_mut(&mut self, handle_a: RigidBodyHandle, handle_b: RigidBodyHandle) -> ((ra, rb): (
        &mut RigidBody,
        &mut RigidBody,
    ))
        requires
            old(self).arena.wf(),
            old(self).arena.valid(handle_a.0),
            old(self).arena.valid(handle_b.0),
            handle_a.0.slot != handle_b.0.slot,
        ensures
            *ra == old(self).arena.at(handle_a.0),
            *rb == old(self).arena.at(handle_b.0),
            final(self).arena.wf(),
            final(self).arena.valid(handle_a.0),
            final(self).arena.valid(handle_b.0),
            final(self).arena.at(handle_a.0) == *final(ra),
            final(self).arena.at(handle_b.0) == *final(rb),
            final(self).arena.slot_count() == old(self).arena.slot_count(),
            final(self).arena.length() == old(self).arena.length(),
            forall|i: int|
                0 <= i < final(self).arena.slot_count() && i != handle_a.0.slot && i
                    != handle_b.0.slot ==> {
                    &&& #[trigger] final(self).arena.occ(i) == old(self).arena.occ(i)
                    &&& final(self).arena.gen_at(i) == old(self).arena.gen_at(i)
                    &&& (old(self).arena.occ(i) ==> final(self).arena.val_at(i) == old(
                        self,
                    ).arena.val_at(i))
                },
            forall|h3: Index| final(self).arena.valid(h3) <==> old(self).arena.valid(h3),
    {
        self.arena.get2_mut(handle_a.0, handle_b.0)
    }

    /// Remove a body; stale handles remove nothing.
    pub fn remove_rbd(&mut self, handle: RigidBodyHandle) -> (r: Option<RigidBody>)
        requires
            old(self).arena.wf(),
        ensures
            final(self).arena.wf(),
            final(self).arena.slot_count() == old(self).arena.slot_count(),
            match r {
                Some(b) => old(self).arena.valid(handle.0) && b == old(self).arena.at(handle.0)
                    && !final(self).arena.valid(handle.0) && !final(self).arena.occ(
                    handle.0.slot as int,
                ) && final(self).arena.length() == old(self).arena.length() - 1 && (forall|i: int|
                    0 <= i < final(self).arena.slot_count() && i != handle.0.slot ==> {
                        &&& #[trigger] final(self).arena.occ(i) == old(self).arena.occ(i)
                        &&& final(self).arena.gen_at(i) == old(self).arena.gen_at(i)
                        &&& (old(self).arena.occ(i) ==> final(self).arena.val_at(i) == old(self).arena.val_at(i))
                    }),
                None => !old(self).arena.valid(handle.0) && *final(self) == *old(self),
            },
    {
        self.arena.remove(handle.0)
    }

    /// The number of live bodies.
    pub fn len(&self) -> (r: usize)
        requires
            self.arena.wf(),
        ensures
            r == self.arena.length(),
    {
        self.arena.len()
    }

    /// Store a body, returning its handle.
    pub fn insert(&mut self, body: RigidBody) -> (h: RigidBodyHandle)
        requires
            old(self).arena.wf(),
            old(self).arena.slot_count() < 0xFFFF_FFFF,
        ensures
            final(self).arena.wf(),
            final(self).arena.valid(h.0),
            final(self).arena.at(h.0) == body,
            !old(self).arena.valid(h.0),
            final(self).arena.length() == old(self).arena.length() + 1,
            old(self).arena.slot_count() <= final(self).arena.slot_count() <= old(self).arena.slot_count() + 1,
            h.0.slot < final(self).arena.slot_count(),
            forall|i: int|
                0 <= i < old(self).arena.slot_count() && i != h.0.slot ==> {
                    &&& #[trigger] final(self).arena.occ(i) == old(self).arena.occ(i)
                    &&& final(self).arena.gen_at(i) == old(self).arena.gen_at(i)
                    &&& (old(self).arena.occ(i) ==> final(self).arena.val_at(i) == old(self).arena.val_at(i))
                },
            forall|h2: Index| h2 != h.0 ==> (final(self).arena.valid(h2) <==> old(self).arena.valid(h2)),
            forall|h2: Index|
                old(self).arena.valid(h2) ==> final(self).arena.at(h2) == old(self).arena.at(h2),
            final(self).arena.slot_count() == old(self).arena.slot_count() + 1 ==> h.0.slot
                == old(self).arena.slot_count(),
            !old(self).arena.occ(h.0.slot as int),
    {
        RigidBodyHandle(self.arena.insert(body))
    }
}

/// A builder for rigid bodies, with the engine's defaults.
pub struct RigidBodyBuilder {
    pub position: Vec2,
    pub position_old: Vec2,
    pub gravity_mod: i64,
    pub rotation: i64,
    pub scale: Vec2,
    pub acceleration: Vec2,
    pub velocity_request: Option<Vec2>,
    pub calculated_velocity: Vec2,
    pub colliders: Vec<ColliderHandle>,
    pub connected_joints: Vec<JointHandle>,
    pub user_data: u128,
    pub body_type: RigidBodyType,
}

impl RigidBodyBuilder {
    /// A dynamic body at the origin with unit gravity scale.
    pub fn new() -> (r: RigidBodyBuilder)
        ensures
            r.wf(),
            r.position@ == (V2i { x: 0int, y: 0int }),
            r.position_old@ == (V2i { x: 0int, y: 0int }),
            r.gravity_mod == FX_ONE,
            r.rotation == 0,
            r.scale == (Vec2 { x: FX_ONE, y: FX_ONE }),
            r.acceleration == (Vec2 { x: 0i64, y: 0i64 }),
            r.velocity_request is None,
            r.calculated_velocity == (Vec2 { x: 0i64, y: 0i64 }),
            r.colliders@.len() == 0,
            r.connected_joints@.len() == 0,
            r.user_data == 0,
            r.body_type == RigidBodyType::Dynamic,
    {
        RigidBodyBuilder {
            position: Vec2 { x: 0, y: 0 },
            position_old: Vec2 { x: 0, y: 0 },
            gravity_mod: FX_ONE,
            rotation: 0,
            scale: Vec2 { x: FX_ONE, y: FX_ONE },
            acceleration: Vec2 { x: 0, y: 0 },
            velocity_request: None,
            calculated_velocity: Vec2 { x: 0, y: 0 },
            colliders: Vec::new(),
            connected_joints: Vec::new(),
            user_data: 0,
            body_type: RigidBodyType::Dynamic,
        }
    }

    /// All staged scalars are within the world bound.
    pub open spec fn wf(self) -> bool {
        &&& in_lim_v(self.position@)
        &&& in_lim_v(self.position_old@)
        &&& in_lim(self.gravity_mod as int)
        &&& in_lim(self.rotation as int)
        &&& in_lim_v(self.scale@)
        &&& in_lim_v(self.acceleration@)
        &&& match self.velocity_request {
            Some(v) => in_lim_v(v@),
            None => true,
        }
        &&& in_lim_v(self.calculated_velocity@)
    }

    /// Place the body; its previous position starts equal, so it is at
    /// rest.
    pub fn position(self, position: Vec2) -> (r: Self)
        requires
            self.wf(),
            in_lim_v(position@),
        ensures
            r.wf(),
            r == (RigidBodyBuilder { position, position_old: position, ..self }),
    {
        RigidBodyBuilder { position, position_old: position, ..self }
    }

    /// Scale applied to this body's gravity.
    pub fn gravity_mod(self, gravity_mod: i64) -> (r: Self)
        requires
            self.wf(),
            in_lim(gravity_mod as int),
        ensures
            r.wf(),
            r == (RigidBodyBuilder { gravity_mod, ..self }),
    {
        RigidBodyBuilder { gravity_mod, ..self }
    }

    /// Initial orientation angle.
    pub fn rotation(self, rotation: i64) -> (r: Self)
        requires
            self.wf(),
            in_lim(rotation as int),
        ensures
            r.wf(),
            r == (RigidBodyBuilder { rotation, ..self }),
    {
        RigidBodyBuilder { rotation, ..self }
    }

    /// Render scale (carried, not used by the solver).
    pub fn scale(self, scale: Vec2) -> (r: Self)
        requires
            self.wf(),
            in_lim_v(scale@),
        ensures
            r.wf(),
            r == (RigidBodyBuilder { scale, ..self }),
    {
        RigidBodyBuilder { scale, ..self }
    }

    /// Initial acceleration accumulator.
    pub fn acceleration(self, acceleration: Vec2) -> (r: Self)
        requires
            self.wf(),
            in_lim_v(acceleration@),
        ensures
            r.wf(),
            r == (RigidBodyBuilder { acceleration, ..self }),
    {
        RigidBodyBuilder { acceleration, ..self }
    }

    /// Initial one-shot velocity request.
    pub fn velocity_request(self, velocity_request: Vec2) -> (r: Self)
        requires
            self.wf(),
            in_lim_v(velocity_request@),
        ensures
            r.wf(),
            r == (RigidBodyBuilder { velocity_request: Some(velocity_request), ..self }),
    {
        RigidBodyBuilder { velocity_request: Some(velocity_request), ..self }
    }

    /// Initial derived velocity.
    pub fn calculated_velocity(self, calculated_velocity: Vec2) -> (r: Self)
        requires
            self.wf(),
            in_lim_v(calculated_velocity@),
        ensures
            r.wf(),
            r == (RigidBodyBuilder { calculated_velocity, ..self }),
    {
        RigidBodyBuilder { calculated_velocity, ..self }
    }

    /// Pre-attached collider handles.
    pub fn colliders(self, colliders: Vec<ColliderHandle>) -> (r: Self)
        requires
            self.wf(),
        ensures
            r.wf(),
            r.colliders == colliders,
            r == (RigidBodyBuilder { colliders, ..self }),
    {
        RigidBodyBuilder { colliders, ..self }
    }

    /// Pre-connected joint handles.
    pub fn connected_joints(self, connected_joints: Vec<JointHandle>) -> (r: Self)
        requires
            self.wf(),
        ensures
            r.wf(),
            r == (RigidBodyBuilder { connected_joints, ..self }),
    {
        RigidBodyBuilder { connected_joints, ..self }
    }

    /// Opaque user data for associating external entities.
    pub fn user_data(self, user_data: u128) -> (r: Self)
        requires
            self.wf(),
        ensures
            r.wf(),
            r == (RigidBodyBuilder { user_data, ..self }),
    {
        RigidBodyBuilder { user_data, ..self }
    }

    /// The body-type variant.
    pub fn body_type(self, body_type: RigidBodyType) -> (r: Self)
        requires
            self.wf(),
        ensures
            r.wf(),
            r == (RigidBodyBuilder { body_type, ..self }),
    {
        RigidBodyBuilder { body_type, ..self }
    }

    /// The staged body, with unit mass and inertia and zeroed
    /// accumulators.
    pub fn build(self) -> (r: RigidBody)
        requires
            self.wf(),
        ensures
            body_wf(r),
            r.position == self.position,
            r.position_old == self.position_old,
            r.gravity_mod == self.gravity_mod,
            r.rotation == self.rotation,
            r.calculated_mass == FX_ONE,
            r.angular_velocity == 0,
            r.torque == 0,
            r.inertia == FX_ONE,
            r.scale == self.scale,
            r.acceleration == self.acceleration,
            r.velocity_request == self.velocity_request,
            r.calculated_velocity == self.calculated_velocity,
            r.colliders == self.colliders,
            r.connected_joints == self.connected_joints,
            r.user_data == self.user_data,
            r.body_type == self.body_type,
    {
        RigidBody {
            position: self.position,
            position_old: self.position_old,
            gravity_mod: self.gravity_mod,
            rotation: self.rotation,
            calculated_mass: FX_ONE,
            angular_velocity: 0,
            torque: 0,
            inertia: FX_ONE,
            scale: self.scale,
            acceleration: self.acceleration,
            velocity_request: self.velocity_request,
            calculated_velocity: self.calculated_velocity,
            colliders: self.colliders,
            connected_joints: self.connected_joints,
            user_data: self.user_data,
            body_type: self.body_type,
        }
    }
}

} // verus!

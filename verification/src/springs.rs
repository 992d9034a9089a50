//! Damped Hookean springs.
//!
//! A spring joins a body to another body or to a fixed world point.  It
//! is stateless between calls: each application recomputes the force
//! `direction * (stiffness * (distance - rest_length) - damping *
//! dot(relative_velocity, direction))` and lands it on both endpoints,
//! equal and opposite.

use crate::arena::Index;
use crate::body::{with_force_applied, RigidBody, RigidBodyHandle, RigidBodySet};
use crate::fx::{clamp_s, fx_mul_c, fx_mul_cs, in_lim, FX_LIM};
use crate::vec2::{
    in_lim_v, lemma_mul_mag, lemma_unit_dir_bounded, v2_clamp, v2_dot, v2_fxdiv, v2_len_wide,
    v2_neg, v2_sub, v_clamp, v_dot, v_fxdiv, v_len, v_neg, v_sub, V2i, Vec2,
};
use vstd::prelude::*;

verus! {

broadcast use crate::arena::lemma_occ_range;

/// A handle to a spring in the engine's spring table.
#[derive(Clone, Copy, PartialEq, Eq, Hash, Structural, Debug)]
pub struct SpringHandle(pub Index);

/// The far endpoint of a spring: a body or a fixed world point.
#[derive(Clone, Copy, PartialEq, Eq, Structural, Debug)]
pub enum SpringConnection {
    RigidBody(RigidBodyHandle),
    Location(Vec2),
}

/// A damped Hookean spring.
#[derive(Clone, Copy, PartialEq, Eq, Structural, Debug)]
pub struct Spring {
    pub rigid_body_a: RigidBodyHandle,
    pub connection_b: SpringConnection,
    pub rest_length: i64,
    pub stiffness: i64,
    pub damping: i64,
}

/// Spring scalars are within the world bound and the rest length is
/// nonnegative.
pub open spec fn spring_wf(s: Spring) -> bool {
    &&& 0 <= s.rest_length <= FX_LIM
    &&& in_lim(s.stiffness as int)
    &&& in_lim(s.damping as int)
    &&& match s.connection_b {
        SpringConnection::Location(p) => in_lim_v(p@),
        SpringConnection::RigidBody(_) => true,
    }
}

/// The spring force on endpoint A, given both endpoint states; each
/// arithmetic stage saturates exactly as the executable code does.
/// Meaningful when the endpoints do not coincide.
pub open spec fn spring_force_s(
    stiffness: int,
    damping: int,
    rest: int,
    pos_a: V2i,
    vel_a: V2i,
    pos_b: V2i,
    vel_b: V2i,
) -> V2i {
    let delta = v_sub(pos_b, pos_a);
    let dist = v_len(delta);
    let dir = v_fxdiv(delta, dist);
    let stretch = clamp_s(dist - rest);
    let rel = v_clamp(v_sub(vel_a, vel_b));
    let damp = clamp_s(v_dot(rel, dir));
    let mag = clamp_s(fx_mul_cs(stiffness, stretch) - fx_mul_cs(damping, damp));
    V2i { x: fx_mul_cs(dir.x, mag), y: fx_mul_cs(dir.y, mag) }
}

/// The core of one spring application over the slot-indexed body
/// values: compute the force from the captured endpoint states, then
/// land it on endpoint A and, for a body endpoint, its opposite on B.
/// Coincident endpoints or a massless dynamic endpoint leave the state
/// alone for the endpoint concerned.
pub open spec fn spring_core_s(
    s: Spring,
    bodies: Seq<Option<RigidBody>>,
    a_slot: int,
    a0: RigidBody,
    pos_b: V2i,
    vel_b: V2i,
    type_b: crate::body::RigidBodyType,
    mass_b: int,
    b_slot: Option<int>,
) -> Seq<Option<RigidBody>> {
    let dist = v_len(v_sub(pos_b, a0.position@));
    if dist == 0 {
        bodies
    } else {
        let f = spring_force_s(
            s.stiffness as int,
            s.damping as int,
            s.rest_length as int,
            a0.position@,
            a0.calculated_velocity@,
            pos_b,
            vel_b,
        );
        let bodies1 = if !(a0.body_type != crate::body::RigidBodyType::Static
            && a0.calculated_mass <= 0) {
            bodies.update(a_slot, Some(with_force_applied(a0, f)))
        } else {
            bodies
        };
        match b_slot {
            Some(bs) => if !(type_b != crate::body::RigidBodyType::Static && mass_b <= 0) {
                let bcur = bodies1[bs]->0;
                bodies1.update(bs, Some(with_force_applied(bcur, v_neg(f))))
            } else {
                bodies1
            },
            None => bodies1,
        }
    }
}

/// One whole spring application: resolve the endpoints against the
/// store (validity judged by `set0`, which a pass never changes), then
/// apply the core; a missing endpoint body makes it a no-op.
pub open spec fn spring_apply_s(
    s: Spring,
    set0: RigidBodySet,
    bodies: Seq<Option<RigidBody>>,
) -> Seq<Option<RigidBody>> {
    if !set0.arena.valid(s.rigid_body_a.0) {
        bodies
    } else {
        let a0 = bodies[s.rigid_body_a.0.slot as int]->0;
        match s.connection_b {
            SpringConnection::RigidBody(hb) => if !set0.arena.valid(hb.0) {
                bodies
            } else {
                let b0 = bodies[hb.0.slot as int]->0;
                spring_core_s(
                    s,
                    bodies,
                    s.rigid_body_a.0.slot as int,
                    a0,
                    b0.position@,
                    b0.calculated_velocity@,
                    b0.body_type,
                    b0.calculated_mass as int,
                    Some(hb.0.slot as int),
                )
            },
            SpringConnection::Location(loc) => spring_core_s(
                s,
                bodies,
                s.rigid_body_a.0.slot as int,
                a0,
                loc@,
                V2i { x: 0int, y: 0int },
                crate::body::RigidBodyType::Static,
                0int,
                None,
            ),
        }
    }
}

impl Spring {
    /// Recompute the spring force and land it on the endpoints, equal
    /// and opposite.  A missing endpoint body, coincident endpoints, or
    /// a massless dynamic endpoint make the application a no-op for the
    /// endpoint concerned: a spring never panics and never moves a
    /// body's position.
    #[verifier::rlimit(100)]
    pub fn apply_force(&self, rbd_set: &mut RigidBodySet)
        requires
            old(rbd_set).wf(),
            spring_wf(*self),
        ensures
            final(rbd_set).wf(),
            final(rbd_set).arena.slot_count() == old(rbd_set).arena.slot_count(),
            final(rbd_set).arena.length() == old(rbd_set).arena.length(),
            forall|h2: Index| final(rbd_set).arena.valid(h2) <==> old(rbd_set).arena.valid(h2),
            forall|i: int|
                0 <= i < final(rbd_set).arena.slot_count() ==> #[trigger] final(rbd_set).arena.occ(i) == old(rbd_set).arena.occ(i),
            forall|i: int|
                0 <= i < final(rbd_set).arena.slot_count() ==> #[trigger] final(rbd_set).arena.gen_at(i) == old(rbd_set).arena.gen_at(i),
            // No field but the acceleration accumulator ever changes.
            forall|i: int|
                #[trigger] final(rbd_set).arena.occ(i) ==> old(rbd_set).arena.occ(i) && final(rbd_set).arena.val_at(i) == (RigidBody {
                    acceleration: final(rbd_set).arena.val_at(i).acceleration,
                    ..old(rbd_set).arena.val_at(i)
                }),
            forall|i: int| #[trigger] old(rbd_set).arena.occ(i) ==> final(rbd_set).arena.occ(i),
            crate::physics::bodies_view(*final(rbd_set)) == spring_apply_s(
                *self,
                *old(rbd_set),
                crate::physics::bodies_view(*old(rbd_set)),
            ),
            // The exact two-body case: both endpoints live and distinct,
            // endpoints not coincident, both able to take the force.
            match self.connection_b {
                SpringConnection::RigidBody(hb) => {
                    (old(rbd_set).arena.valid(self.rigid_body_a.0) && old(rbd_set).arena.valid(
                        hb.0,
                    ) && hb.0.slot != self.rigid_body_a.0.slot) ==> {
                        let a0 = old(rbd_set).arena.at(self.rigid_body_a.0);
                        let b0 = old(rbd_set).arena.at(hb.0);
                        let f = spring_force_s(
                            self.stiffness as int,
                            self.damping as int,
                            self.rest_length as int,
                            a0.position@,
                            a0.calculated_velocity@,
                            b0.position@,
                            b0.calculated_velocity@,
                        );
                        (v_len(v_sub(b0.position@, a0.position@)) > 0 && (a0.body_type
                            == crate::body::RigidBodyType::Static || a0.calculated_mass > 0) && (
                        b0.body_type == crate::body::RigidBodyType::Static || b0.calculated_mass
                            > 0)) ==> {
                            &&& final(rbd_set).arena.at(self.rigid_body_a.0)
                                == with_force_applied(a0, f)
                            &&& final(rbd_set).arena.at(hb.0) == with_force_applied(b0, v_neg(f))
                        }
                    }
                },
                SpringConnection::Location(loc) => {
                    old(rbd_set).arena.valid(self.rigid_body_a.0) ==> {
                        let a0 = old(rbd_set).arena.at(self.rigid_body_a.0);
                        let f = spring_force_s(
                            self.stiffness as int,
                            self.damping as int,
                            self.rest_length as int,
                            a0.position@,
                            a0.calculated_velocity@,
                            loc@,
                            V2i { x: 0int, y: 0int },
                        );
                        (v_len(v_sub(loc@, a0.position@)) > 0 && (a0.body_type
                            == crate::body::RigidBodyType::Static || a0.calculated_mass > 0))
                            ==> final(rbd_set).arena.at(self.rigid_body_a.0)
                            == with_force_applied(a0, f)
                    }
                },
            },
    {
        let ghost pre = *rbd_set;
        let a_state = match rbd_set.get(self.rigid_body_a) {
            Some(b) => Some((b.position, b.calculated_velocity, b.calculated_mass, b.body_type)),
            None => None,
        };
        match a_state {
            None => {},
            Some((pos_a, vel_a, mass_a, type_a)) => {
                let b_state = match &self.connection_b {
                    SpringConnection::RigidBody(hb) => {
                        let hb = *hb;
                        match rbd_set.get(hb) {
                            Some(b) => Some(
                                (
                                    b.position,
                                    b.calculated_velocity,
                                    b.calculated_mass,
                                    b.body_type,
                                    Some(hb),
                                ),
                            ),
                            None => None,
                        }
                    },
                    SpringConnection::Location(loc) => Some(
                        (*loc, Vec2 { x: 0, y: 0 }, 0i64, crate::body::RigidBodyType::Static, None),
                    ),
                };
                match b_state {
                    None => {},
                    Some((pos_b, vel_b, mass_b, type_b, hb_opt)) => {
                        let delta = v2_sub(pos_b, pos_a);
                        let dist = v2_len_wide(delta);
                        if dist > 0 {
                            proof {
                                lemma_unit_dir_bounded(delta@);
                            }
                            let dir = v2_fxdiv(delta, dist);
                            let stretch = crate::fx::clamp64(dist - self.rest_length);
                            let rel = v2_clamp(v2_sub(vel_a, vel_b));
                            let damp = crate::fx::clamp64(v2_dot(rel, dir));
                            proof {
                                lemma_mul_mag(self.stiffness as int, stretch as int, FX_LIM as int);
                                lemma_mul_mag(self.damping as int, damp as int, FX_LIM as int);
                            }
                            let t1 = fx_mul_c(self.stiffness, stretch);
                            let t2 = fx_mul_c(self.damping, damp);
                            let mag = crate::fx::clamp64(t1 - t2);
                            proof {
                                lemma_mul_mag(dir@.x, mag as int, FX_LIM as int);
                                lemma_mul_mag(dir@.y, mag as int, FX_LIM as int);
                            }
                            let force = Vec2 { x: fx_mul_c(dir.x, mag), y: fx_mul_c(dir.y, mag) };
                            if !(type_a != crate::body::RigidBodyType::Static && mass_a <= 0) {
                                let a = rbd_set.get_mut(self.rigid_body_a);
                                a.apply_force(force);
                            }
                            let ghost mid = *rbd_set;
                            match hb_opt {
                                Some(hb) => {
                                    if !(type_b != crate::body::RigidBodyType::Static && mass_b
                                        <= 0) {
                                        let nf = v2_neg(force);
                                        let b = rbd_set.get_mut(hb);
                                        b.apply_force(nf);
                                    }
                                },
                                None => {},
                            }
                            proof {
                                assert forall|i: int|
                                    0 <= i < rbd_set.arena.slot_count() implies #[trigger] rbd_set
                                    .arena.occ(i) == pre.arena.occ(i) by {
                                    assert(rbd_set.arena.occ(i) == mid.arena.occ(i));
                                    assert(mid.arena.occ(i) == pre.arena.occ(i));
                                }
                                assert forall|i: int|
                                    0 <= i < rbd_set.arena.slot_count() implies #[trigger] rbd_set
                                    .arena.gen_at(i) == pre.arena.gen_at(i) by {
                                    assert(rbd_set.arena.occ(i) == mid.arena.occ(i));
                                    assert(mid.arena.occ(i) == pre.arena.occ(i));
                                    assert(rbd_set.arena.gen_at(i) == mid.arena.gen_at(i));
                                    assert(mid.arena.gen_at(i) == pre.arena.gen_at(i));
                                }
                                assert forall|i: int|
                                    #[trigger] rbd_set.arena.occ(i) implies pre.arena.occ(i)
                                    && rbd_set.arena.val_at(i) == (RigidBody {
                                    acceleration: rbd_set.arena.val_at(i).acceleration,
                                    ..pre.arena.val_at(i)
                                }) by {
                                    assert(pre.arena.occ(i));
                                    assert(mid.arena.occ(i));
                                }
                            }
                        }
                    },
                }
            },
        }
    }
}


/// A spring application reads the store only through handle validity.
pub proof fn lemma_spring_apply_agree(
    s: Spring,
    s1: RigidBodySet,
    s2: RigidBodySet,
    bodies: Seq<Option<RigidBody>>,
)
    requires
        forall|h: Index| s1.arena.valid(h) <==> s2.arena.valid(h),
    ensures
        spring_apply_s(s, s1, bodies) == spring_apply_s(s, s2, bodies),
{
}

/// Every spring applied once, in ascending slot order.
pub open spec fn springs_fold_s(
    springs: crate::arena::Arena<Spring>,
    set0: RigidBodySet,
    bodies: Seq<Option<RigidBody>>,
    k: int,
) -> Seq<Option<RigidBody>>
    decreases k,
{
    if k <= 0 {
        bodies
    } else {
        let rest = springs_fold_s(springs, set0, bodies, k - 1);
        if springs.occ(k - 1) {
            spring_apply_s(springs.val_at(k - 1), set0, rest)
        } else {
            rest
        }
    }
}

} // verus!

//! Colliders and their store.
//!
//! A collider is a circular extent attached to a parent body through a
//! local offset.  Only circles take part in narrow-phase resolution;
//! other shapes exist nominally.  A collider's mass is twice its radius,
//! and its inertia follows the parallel-axis theorem, both saturated at
//! the world bound.

use crate::arena::{Arena, Index};
use crate::body::{RigidBody, RigidBodyHandle, RigidBodySet, Transform2};
use crate::fx::{clamp_s, fx_mul_c, fx_mul_cs, in_lim, FX_LIM, FX_ONE};
use crate::groups::InteractionGroups;
use crate::vec2::{in_lim_v, v2_len, v_len, Vec2};
use vstd::prelude::*;

verus! {

broadcast use crate::arena::lemma_occ_range;

/// A handle to a collider in its store.
#[derive(Clone, Copy, PartialEq, Eq, Hash, Structural, Debug)]
pub struct ColliderHandle(pub Index);

/// A set of flags for controlling collision filtering: a sensor reports
/// overlap but is never positionally corrected.
#[derive(Clone, Copy, PartialEq, Eq, Hash, Structural, Debug)]
pub struct ColliderFlags {
    pub is_sensor: bool,
}

impl Default for ColliderFlags {
    /// By default a collider is solid, not a sensor.
    fn default() -> (r: Self)
        ensures
            r.is_sensor == false,
    {
        ColliderFlags { is_sensor: false }
    }
}

/// The geometric shape of a collider.  Only the ball is resolvable.
#[derive(Clone, Copy, PartialEq, Eq, Structural, Debug)]
pub enum Shape {
    Ball { radius: i64 },
    Cuboid { half_extents: Vec2 },
}

impl Shape {
    /// The ball radius, when the shape is a ball.
    pub fn as_ball(&self) -> (r: Option<i64>)
        ensures
            match r {
                Some(radius) => *self == (Shape::Ball { radius }),
                None => !(*self matches Shape::Ball { .. }),
            },
    {
        match self {
            Shape::Ball { radius } => Some(*radius),
            Shape::Cuboid { .. } => None,
        }
    }

    /// The half extents, when the shape is a cuboid.
    pub fn as_cuboid(&self) -> (r: Option<Vec2>)
        ensures
            match r {
                Some(half_extents) => *self == (Shape::Cuboid { half_extents }),
                None => !(*self matches Shape::Cuboid { .. }),
            },
    {
        match self {
            Shape::Ball { .. } => None,
            Shape::Cuboid { half_extents } => Some(*half_extents),
        }
    }
}

/// A circular extent attached to a parent body.
#[derive(Clone, Copy, PartialEq, Eq, Structural, Debug)]
pub struct Collider {
    /// Local offset from the parent body's origin.  The engine adds
    /// offsets to positions; the parent's rotation is carried as
    /// an angle and does not turn the offset, which would need
    /// trigonometry outside the fixed-point model.
    pub offset: Vec2,
    /// The cached world pose, refreshed each substep from the parent.
    pub absolute_transform: Transform2,
    pub user_data: u128,
    pub parent: Option<RigidBodyHandle>,
    pub radius: i64,
    pub flags: ColliderFlags,
    pub collision_groups: InteractionGroups,
    pub shape: Shape,
}

/// Collider scalars are within the world bound and the radius is
/// nonnegative.
pub open spec fn collider_wf(c: Collider) -> bool {
    &&& in_lim_v(c.offset@)
    &&& in_lim_v(c.absolute_transform.translation@)
    &&& in_lim(c.absolute_transform.rotation as int)
    &&& 0 <= c.radius <= FX_LIM
}

/// The mass a collider contributes: twice its radius.
pub open spec fn collider_mass_s(c: Collider) -> int {
    2 * c.radius
}

/// The inertia a collider contributes: a disc's own term plus the
/// parallel-axis term for its offset, each stage saturated.
pub open spec fn collider_inertia_s(c: Collider) -> int {
    let own = fx_mul_cs(c.radius as int, fx_mul_cs(c.radius as int, c.radius as int));
    let d = clamp_s(v_len(c.offset@));
    let axis = fx_mul_cs(clamp_s(2 * c.radius), fx_mul_cs(d, d));
    clamp_s(own + axis)
}

impl Collider {
    /// The local offset from the parent body.
    pub fn relative_translation(&self) -> (r: Vec2)
        ensures
            r == self.offset,
    {
        self.offset
    }

    /// The cached world rotation angle.
    pub fn absolute_rotation(&self) -> (r: i64)
        ensures
            r == self.absolute_transform.rotation,
    {
        self.absolute_transform.rotation
    }

    /// The cached world position.
    pub fn absolute_translation(&self) -> (r: Vec2)
        ensures
            r == self.absolute_transform.translation,
    {
        self.absolute_transform.translation
    }

    /// The shape.
    pub fn shape(&self) -> (r: Shape)
        ensures
            r == self.shape,
    {
        self.shape
    }

    /// The contributed mass: twice the radius, exactly.
    pub fn mass(&self) -> (r: i64)
        requires
            collider_wf(*self),
        ensures
            r == collider_mass_s(*self),
            0 <= r <= 2 * FX_LIM,
    {
        2 * self.radius
    }

    /// The contributed inertia, exact per `collider_inertia_s`.
    pub fn inertia(&self) -> (r: i64)
        requires
            collider_wf(*self),
        ensures
            r == collider_inertia_s(*self),
            in_lim(r as int),
    {
        proof {
            crate::vec2::lemma_mul_mag(self.radius as int, self.radius as int, FX_LIM as int);
        }
        let rr = fx_mul_c(self.radius, self.radius);
        proof {
            crate::vec2::lemma_mul_mag(self.radius as int, rr as int, FX_LIM as int);
        }
        let own = fx_mul_c(self.radius, rr);
        let d = crate::fx::clamp64(v2_len(self.offset));
        proof {
            crate::vec2::lemma_mul_mag(d as int, d as int, FX_LIM as int);
        }
        let dd = fx_mul_c(d, d);
        let m = crate::fx::clamp64(2 * self.radius);
        proof {
            crate::vec2::lemma_mul_mag(m as int, dd as int, FX_LIM as int);
        }
        let axis = fx_mul_c(m, dd);
        crate::fx::add_clamped(own, axis)
    }
}

/// The handle a collider contributes to its parent's mass tally, when
/// live.
pub open spec fn mass_contrib(cs: ColliderSet, h: ColliderHandle) -> int {
    if cs.arena.valid(h.0) {
        collider_mass_s(cs.arena.at(h.0))
    } else {
        0
    }
}

/// The inertia a collider handle contributes, when live.
pub open spec fn inertia_contrib(cs: ColliderSet, h: ColliderHandle) -> int {
    if cs.arena.valid(h.0) {
        collider_inertia_s(cs.arena.at(h.0))
    } else {
        0
    }
}

/// The saturated running sum of contributed masses over the first `n`
/// handles.
pub open spec fn mass_sum(cs: ColliderSet, hs: Seq<ColliderHandle>, n: int) -> int
    decreases n,
{
    if n <= 0 {
        0
    } else {
        clamp_s(mass_sum(cs, hs, n - 1) + mass_contrib(cs, hs[n - 1]))
    }
}

/// The saturated running sum of contributed inertias over the first `n`
/// handles.
pub open spec fn inertia_sum(cs: ColliderSet, hs: Seq<ColliderHandle>, n: int) -> int
    decreases n,
{
    if n <= 0 {
        0
    } else {
        clamp_s(inertia_sum(cs, hs, n - 1) + inertia_contrib(cs, hs[n - 1]))
    }
}

/// A fixed-point product of nonnegative factors is nonnegative and
/// saturated below the world bound.
pub proof fn lemma_fx_mul_cs_nonneg(a: int, b: int)
    requires
        a >= 0,
        b >= 0,
    ensures
        0 <= fx_mul_cs(a, b) <= FX_LIM,
{
    assert(a * b >= 0) by (nonlinear_arith)
        requires a >= 0 && b >= 0;
    if a * b > 0 {
        vstd::arithmetic::div_mod::lemma_div_pos_is_pos(a * b, FX_ONE as int);
    }
}

/// The saturated mass tally stays between zero and the world bound.
pub proof fn lemma_mass_sum_bounds(cs: ColliderSet, hs: Seq<ColliderHandle>, n: int)
    requires
        cs.wf(),
    ensures
        0 <= mass_sum(cs, hs, n) <= FX_LIM,
    decreases n,
{
    if n > 0 {
        lemma_mass_sum_bounds(cs, hs, n - 1);
    }
}

/// The saturated inertia tally stays between zero and the world bound.
pub proof fn lemma_inertia_sum_bounds(cs: ColliderSet, hs: Seq<ColliderHandle>, n: int)
    requires
        cs.wf(),
    ensures
        0 <= inertia_sum(cs, hs, n) <= FX_LIM,
    decreases n,
{
    if n > 0 {
        lemma_inertia_sum_bounds(cs, hs, n - 1);
        let h = hs[n - 1];
        if cs.arena.valid(h.0) {
            let c = cs.arena.at(h.0);
            assert(cs.arena.occ(h.0.slot as int));
            assert(collider_wf(c));
            lemma_fx_mul_cs_nonneg(c.radius as int, c.radius as int);
            lemma_fx_mul_cs_nonneg(c.radius as int, fx_mul_cs(c.radius as int, c.radius as int));
            let d = clamp_s(v_len(c.offset@));
            assert(v_len(c.offset@) >= 0) by {
                crate::fx::lemma_sqrt_nonneg(crate::vec2::v_len_sq(c.offset@));
            }
            lemma_fx_mul_cs_nonneg(d, d);
            lemma_fx_mul_cs_nonneg(clamp_s(2 * c.radius), fx_mul_cs(d, d));
        }
    }
}

/// Two collider stores that agree on every listed handle give the same
/// mass tally.
pub proof fn lemma_mass_sum_agree(
    cs1: ColliderSet,
    cs2: ColliderSet,
    hs: Seq<ColliderHandle>,
    n: int,
)
    requires
        forall|q: int| 0 <= q < n ==> mass_contrib(cs1, hs[q]) == mass_contrib(cs2, hs[q]),
    ensures
        mass_sum(cs1, hs, n) == mass_sum(cs2, hs, n),
    decreases n,
{
    if n > 0 {
        lemma_mass_sum_agree(cs1, cs2, hs, n - 1);
    }
}

/// Two collider stores that agree on every listed handle give the same
/// inertia tally.
pub proof fn lemma_inertia_sum_agree(
    cs1: ColliderSet,
    cs2: ColliderSet,
    hs: Seq<ColliderHandle>,
    n: int,
)
    requires
        forall|q: int| 0 <= q < n ==> inertia_contrib(cs1, hs[q]) == inertia_contrib(cs2, hs[q]),
    ensures
        inertia_sum(cs1, hs, n) == inertia_sum(cs2, hs, n),
    decreases n,
{
    if n > 0 {
        lemma_inertia_sum_agree(cs1, cs2, hs, n - 1);
    }
}

impl RigidBody {
    /// Recompute the body's mass and inertia as the saturated sum of its
    /// colliders' contributions; handles of removed colliders count
    /// nothing.
    pub fn update_mass_and_inertia(&mut self, col_set: &ColliderSet)
        requires
            col_set.wf(),
        ensures
            *final(self) == (RigidBody {
                calculated_mass: mass_sum(
                    *col_set,
                    old(self).colliders@,
                    old(self).colliders@.len() as int,
                ) as i64,
                inertia: inertia_sum(
                    *col_set,
                    old(self).colliders@,
                    old(self).colliders@.len() as int,
                ) as i64,
                ..*old(self)
            }),
    {
        let mut mass: i64 = 0;
        let mut inertia: i64 = 0;
        let n = self.colliders.len();
        let mut i: usize = 0;
        while i < n
            invariant
                col_set.wf(),
                n == self.colliders@.len(),
                self == old(self),
                0 <= i <= n,
                mass == mass_sum(*col_set, self.colliders@, i as int),
                inertia == inertia_sum(*col_set, self.colliders@, i as int),
                in_lim(mass as int),
                in_lim(inertia as int),
            decreases n - i,
        {
            let h = self.colliders[i];
            match col_set.get(h) {
                Some(c) => {
                    let cm = c.mass();
                    let ci = c.inertia();
                    mass = crate::fx::clamp64(mass + cm);
                    inertia = crate::fx::add_clamped(inertia, ci);
                },
                None => {
                    proof {
                        assert(clamp_s(mass as int + 0) == mass as int);
                    }
                },
            }
            i = i + 1;
        }
        self.calculated_mass = mass;
        self.inertia = inertia;
    }
}

/// The store of colliders.
pub struct ColliderSet {
    pub arena: Arena<Collider>,
}

impl ColliderSet {
    /// Internal consistency of the underlying table, plus per-collider
    /// bounds.
    pub open spec fn wf(self) -> bool {
        &&& self.arena.wf()
        &&& forall|i: int| #[trigger] self.arena.occ(i) ==> collider_wf(self.arena.val_at(i))
    }

    /// An empty store.
    pub fn new() -> (r: ColliderSet)
        ensures
            r.wf(),
            r.arena.slot_count() == 0,
            r.arena.length() == 0,
            forall|h: Index| !r.arena.valid(h),
    {
        ColliderSet { arena: Arena::new() }
    }

    /// The collider behind a live handle; stale handles yield `None`.
    pub fn get(&self, handle: ColliderHandle) -> (r: Option<&Collider>)
        ensures
            match r {
                Some(c) => self.arena.valid(handle.0) && *c == self.arena.at(handle.0),
                None => !self.arena.valid(handle.0),
            },
    {
        self.arena.get(handle.0)
    }

    /// Whether a handle is live.
    pub fn contains(&self, handle: ColliderHandle) -> (r: bool)
        ensures
            r == self.arena.valid(handle.0),
    {
        self.arena.contains(handle.0)
    }

    /// Mutable access to the collider behind a live handle.
    pub fn get_mut(&mut self, handle: ColliderHandle) -> (r: &mut Collider)
        requires
            old(self).arena.wf(),
            old(self).arena.valid(handle.0),
        ensures
            *r == old(self).arena.at(handle.0),
            final(self).arena.wf(),
            final(self).arena.valid(handle.0),
            final(self).arena.at(handle.0) == *final(r),
            final(self).arena.slot_count() == old(self).arena.slot_count(),
            final(self).arena.length() == old(self).arena.length(),
            forall|i: int|
                0 <= i < final(self).arena.slot_count() && i != handle.0.slot ==> {
                    &&& #[trigger] final(self).arena.occ(i) == old(self).arena.occ(i)
                    &&& final(self).arena.gen_at(i) == old(self).arena.gen_at(i)
                    &&& (old(self).arena.occ(i) ==> final(self).arena.val_at(i) == old(self).arena.val_at(i))
                },
            final(self).arena.gen_at(handle.0.slot as int) == old(self).arena.gen_at(
                handle.0.slot as int,
            ),
            forall|h2: Index| final(self).arena.valid(h2) <==> old(self).arena.valid(h2),
    {
        self.arena.borrow_mut(handle.0)
    }

    /// Mutable access to the colliders behind two live handles at once;
    /// the handles must name different slots, so the references never
    /// alias.
    pub fn get2_mut(&mut self, handle_a: ColliderHandle, handle_b: ColliderHandle) -> ((ra, rb): (
        &mut Collider,
        &mut Collider,
    ))
        requires
            old(self).arena.wf(),
            old(self).arena.valid(handle_a.0),
            old(self).arena.valid(handle_b.0),
            handle_a.0.slot != handle_b.0.slot,
        ensures
            *ra == old(self).arena.at(handle_a.0),
            *rb == old(self).arena.at(handle_b.0),
            final(self).arena.wf(),
            final(self).arena.valid(handle_a.0),
            final(self).arena.valid(handle_b.0),
            final(self).arena.at(handle_a.0) == *final(ra),
            final(self).arena.at(handle_b.0) == *final(rb),
            final(self).arena.slot_count() == old(self).arena.slot_count(),
            final(self).arena.length() == old(self).arena.length(),
            forall|i: int|
                0 <= i < final(self).arena.slot_count() && i != handle_a.0.slot && i
                    != handle_b.0.slot ==> {
                    &&& #[trigger] final(self).arena.occ(i) == old(self).arena.occ(i)
                    &&& final(self).arena.gen_at(i) == old(self).arena.gen_at(i)
                    &&& (old(self).arena.occ(i) ==> final(self).arena.val_at(i) == old(self).arena.val_at(i))
                },
            forall|h3: Index| final(self).arena.valid(h3) <==> old(self).arena.valid(h3),
    {
        self.arena.get2_mut(handle_a.0, handle_b.0)
    }

    /// The handles of all live colliders, in slot order.
    pub fn handles(&self) -> (r: Vec<ColliderHandle>)
        requires
            self.wf(),
        ensures
            forall|j: int|
                0 <= j < r@.len() ==> self.arena.valid((#[trigger] r@[j]).0),
            forall|j1: int, j2: int|
                0 <= j1 < j2 < r@.len() ==> (#[trigger] r@[j1]).0.slot < (#[trigger] r@[j2]).0.slot,
            forall|i: int|
                #[trigger] self.arena.occ(i) ==> exists|j: int|
                    0 <= j < r@.len() && r@[j].0.slot == i,
    {
        let mut out: Vec<ColliderHandle> = Vec::new();
        let n = self.arena.num_slots();
        let mut i: usize = 0;
        while i < n
            invariant
                self.wf(),
                n == self.arena.slot_count(),
                0 <= i <= n,
                forall|j: int|
                    0 <= j < out@.len() ==> self.arena.valid((#[trigger] out@[j]).0)
                        && out@[j].0.slot < i,
                forall|j1: int, j2: int|
                    0 <= j1 < j2 < out@.len() ==> (#[trigger] out@[j1]).0.slot < (
                    #[trigger] out@[j2]).0.slot,
                forall|k: int|
                    0 <= k < i && #[trigger] self.arena.occ(k) ==> exists|j: int|
                        0 <= j < out@.len() && out@[j].0.slot == k,
            decreases n - i,
        {
            let ghost prev = out@;
            match self.arena.get_slot(i) {
                Some(_) => {
                    let h = ColliderHandle(self.arena.handle_at(i));
                    out.push(h);
                },
                None => {},
            }
            proof {
                assert forall|k: int|
                    0 <= k < i + 1 && #[trigger] self.arena.occ(k) implies exists|j: int|
                    0 <= j < out@.len() && out@[j].0.slot == k by {
                    if k == i {
                        assert(out@[out@.len() - 1].0.slot == k);
                    } else {
                        let j = choose|j: int| 0 <= j < prev.len() && prev[j].0.slot == k;
                        assert(out@[j].0.slot == k);
                    }
                }
            }
            i = i + 1;
        }
        out
    }

    /// The number of live colliders.
    pub fn len(&self) -> (r: usize)
        requires
            self.arena.wf(),
        ensures
            r == self.arena.length(),
    {
        self.arena.len()
    }

    /// Delete a collider without touching its parent body.
    pub fn remove_ignoring_parent(&mut self, handle: ColliderHandle)
        requires
            old(self).wf(),
        ensures
            final(self).wf(),
            final(self).arena.slot_count() == old(self).arena.slot_count(),
            !final(self).arena.valid(handle.0),
            forall|h2: Index| h2 != handle.0 && old(self).arena.valid(h2) ==> final(self).arena.valid(h2),
            forall|h2: Index| final(self).arena.valid(h2) ==> old(self).arena.valid(h2),
            forall|h2: Index|
                final(self).arena.valid(h2) ==> final(self).arena.at(h2) == old(self).arena.at(h2),
            old(self).arena.valid(handle.0) ==> final(self).arena.length() == old(self).arena.length() - 1,
            !old(self).arena.valid(handle.0) ==> *final(self) == *old(self),
    {
        let ghost pre = *self;
        let removed = self.arena.remove(handle.0);
        proof {
            match removed {
                Some(_) => {
                    assert forall|i: int| #[trigger] self.arena.occ(i) implies collider_wf(
                        self.arena.val_at(i),
                    ) by {
                        assert(i != handle.0.slot);
                        assert(pre.arena.occ(i));
                    }
                },
                None => {},
            }
        }
    }

    /// Delete a collider and detach it from its parent body: the handle
    /// leaves the parent's collider list and the parent's mass and
    /// inertia are recomputed over what is left.  A parent whose list
    /// became empty is removed from the body store as well and named in
    /// the result (its spatial point is the engine's to clean up).
    /// Stale handles remove nothing.
    #[verifier::rlimit(100)]
    pub fn remove(&mut self, handle: ColliderHandle, rbd_set: &mut RigidBodySet) -> (removed_body:
        Option<RigidBodyHandle>)
        requires
            old(self).wf(),
            old(rbd_set).wf(),
        ensures
            final(self).wf(),
            final(rbd_set).wf(),
            !final(self).arena.valid(handle.0),
            final(self).arena.slot_count() == old(self).arena.slot_count(),
            final(rbd_set).arena.slot_count() == old(rbd_set).arena.slot_count(),
            forall|h2: Index|
                h2 != handle.0 && old(self).arena.valid(h2) ==> final(self).arena.valid(h2)
                    && final(self).arena.at(h2) == old(self).arena.at(h2),
            forall|h2: Index| final(self).arena.valid(h2) ==> old(self).arena.valid(h2),
            !old(self).arena.valid(handle.0) ==> *final(self) == *old(self) && *final(rbd_set)
                == *old(rbd_set) && removed_body is None,
            old(self).arena.valid(handle.0) ==> match old(self).arena.at(handle.0).parent {
                None => *final(rbd_set) == *old(rbd_set) && removed_body is None,
                Some(p) => {
                    if !old(rbd_set).arena.valid(p.0) {
                        *final(rbd_set) == *old(rbd_set) && removed_body is None
                    } else {
                        let b0 = old(rbd_set).arena.at(p.0);
                        let emptied = forall|q: int|
                            0 <= q < b0.colliders@.len() ==> b0.colliders@[q] == handle;
                        &&& (emptied ==> removed_body == Some(p) && !final(rbd_set).arena.valid(
                            p.0,
                        ))
                        &&& (!emptied ==> removed_body is None && final(rbd_set).arena.valid(p.0)
                            && {
                            let b1 = final(rbd_set).arena.at(p.0);
                            &&& forall|h2: ColliderHandle|
                                b1.colliders@.contains(h2) <==> (b0.colliders@.contains(h2) && h2
                                    != handle)
                            &&& b1.calculated_mass == mass_sum(
                                *final(self),
                                b1.colliders@,
                                b1.colliders@.len() as int,
                            )
                            &&& b1.inertia == inertia_sum(
                                *final(self),
                                b1.colliders@,
                                b1.colliders@.len() as int,
                            )
                            &&& b1 == (RigidBody {
                                colliders: b1.colliders,
                                calculated_mass: b1.calculated_mass,
                                inertia: b1.inertia,
                                ..b0
                            })
                        })
                        &&& forall|h2: Index|
                            h2 != p.0 && old(rbd_set).arena.valid(h2) ==> final(rbd_set).arena.valid(h2) && final(rbd_set).arena.at(h2) == old(rbd_set).arena.at(h2)
                    }
                },
            },
    {
        let ghost pre_cols = *self;
        let ghost pre_bodies = *rbd_set;
        let parent: Option<RigidBodyHandle> = match self.arena.get(handle.0) {
            Some(c) => c.parent,
            None => {
                return None;
            },
        };
        let mut removed_body: Option<RigidBodyHandle> = None;
        match parent {
            Some(p) => {
                if rbd_set.contains(p) {
                    let remove_rbd = {
                        let body = rbd_set.get_mut(p);
                        let ghost b0 = *body;
                        let n = body.colliders.len();
                        let mut kept: Vec<ColliderHandle> = Vec::new();
                        let mut k: usize = 0;
                        while k < n
                            invariant
                                0 <= k <= n,
                                n == body.colliders@.len(),
                                forall|q: int|
                                    0 <= q < kept@.len() ==> #[trigger] kept@[q] != handle,
                                forall|h2: ColliderHandle|
                                    kept@.contains(h2) <==> (exists|w: int|
                                        0 <= w < k && body.colliders@[w] == h2 && h2 != handle),
                            decreases n - k,
                        {
                            let ghost kept0 = kept@;
                            let h2 = body.colliders[k];
                            if h2 != handle {
                                kept.push(h2);
                                proof {
                                    assert(kept@.last() == h2);
                                    assert forall|q: int|
                                        0 <= q < kept0.len() implies kept@[q] == kept0[q] by {}
                                }
                            }
                            proof {
                                assert forall|h3: ColliderHandle|
                                    kept@.contains(h3) implies (exists|w: int|
                                    0 <= w < k + 1 && body.colliders@[w] == h3 && h3
                                        != handle) by {
                                    let q = choose|q: int|
                                        0 <= q < kept@.len() && kept@[q] == h3;
                                    if q < kept0.len() {
                                        assert(kept0[q] == h3);
                                        assert(kept0.contains(h3));
                                        let w = choose|w: int|
                                            0 <= w < k && body.colliders@[w] == h3 && h3
                                                != handle;
                                        assert(0 <= w < k + 1 && body.colliders@[w] == h3);
                                    } else {
                                        assert(h3 == h2 && h2 != handle);
                                        assert(body.colliders@[k as int] == h3);
                                    }
                                }
                                assert forall|h3: ColliderHandle|
                                    (exists|w: int|
                                        0 <= w < k + 1 && body.colliders@[w] == h3 && h3
                                            != handle) implies kept@.contains(h3) by {
                                    let w = choose|w: int|
                                        0 <= w < k + 1 && body.colliders@[w] == h3 && h3
                                            != handle;
                                    if w == k {
                                        assert(h3 == h2);
                                        assert(kept@.last() == h3);
                                    } else {
                                        assert(kept0.contains(h3));
                                        let q = choose|q: int|
                                            0 <= q < kept0.len() && kept0[q] == h3;
                                        assert(kept@[q] == h3);
                                    }
                                }
                            }
                            k = k + 1;
                        }
                        body.colliders = kept;
                        body.update_mass_and_inertia(self);
                        proof {
                            assert forall|h3: ColliderHandle|
                                body.colliders@.contains(h3) implies (b0.colliders@.contains(h3)
                                && h3 != handle) by {
                                let w = choose|w: int|
                                    0 <= w < b0.colliders@.len() && b0.colliders@[w] == h3 && h3
                                        != handle;
                            }
                            assert forall|h3: ColliderHandle|
                                b0.colliders@.contains(h3) && h3 != handle implies body
                                .colliders@.contains(h3) by {
                                let w = choose|w: int|
                                    0 <= w < b0.colliders@.len() && b0.colliders@[w] == h3;
                            }
                        }
                        body.colliders.len() == 0
                    };
                    proof {
                        lemma_mass_sum_bounds(
                            *self,
                            rbd_set.arena.at(p.0).colliders@,
                            rbd_set.arena.at(p.0).colliders@.len() as int,
                        );
                        lemma_inertia_sum_bounds(
                            *self,
                            rbd_set.arena.at(p.0).colliders@,
                            rbd_set.arena.at(p.0).colliders@.len() as int,
                        );
                        assert forall|i: int| #[trigger] rbd_set.arena.occ(i) implies
                            crate::body::body_wf(rbd_set.arena.val_at(i)) by {
                            if i != p.0.slot {
                                assert(pre_bodies.arena.occ(i));
                            }
                        }
                    }
                    if remove_rbd {
                        let gone = rbd_set.remove_rbd(p);
                        proof {
                            match gone {
                                Some(_) => {
                                    assert forall|i: int| #[trigger] rbd_set.arena.occ(i) implies
                                        crate::body::body_wf(rbd_set.arena.val_at(i)) by {
                                        assert(pre_bodies.arena.occ(i));
                                    }
                                },
                                None => {},
                            }
                        }
                        removed_body = Some(p);
                    }
                    proof {
                        // an emptied kept list means every old entry was
                        // the removed handle, and conversely
                        let b0 = pre_bodies.arena.at(p.0);
                        if removed_body is None {
                            assert(rbd_set.arena.at(p.0).colliders@.len() > 0);
                            let h3 = rbd_set.arena.at(p.0).colliders@[0];
                            assert(rbd_set.arena.at(p.0).colliders@.contains(h3));
                            assert(b0.colliders@.contains(h3) && h3 != handle);
                            let w = choose|w: int|
                                0 <= w < b0.colliders@.len() && b0.colliders@[w] == h3;
                            assert(!(forall|q: int|
                                0 <= q < b0.colliders@.len() ==> b0.colliders@[q] == handle));
                        } else {
                            assert forall|q: int|
                                0 <= q < b0.colliders@.len() implies b0.colliders@[q]
                                == handle by {
                                if b0.colliders@[q] != handle {
                                    assert(b0.colliders@.contains(b0.colliders@[q]));
                                }
                            }
                        }
                    }
                }
            },
            None => {},
        }
        let ghost mid_cols = *self;
        let ghost mid_bodies = *rbd_set;
        self.remove_ignoring_parent(handle);
        proof {
            if pre_cols.arena.valid(handle.0) && parent is Some {
                let p = parent->0;
                if pre_bodies.arena.valid(p.0) && removed_body is None {
                    let b1 = rbd_set.arena.at(p.0);
                    assert forall|q: int|
                        0 <= q < b1.colliders@.len() implies #[trigger] mass_contrib(
                        *self,
                        b1.colliders@[q],
                    ) == mass_contrib(mid_cols, b1.colliders@[q]) && inertia_contrib(
                        *self,
                        b1.colliders@[q],
                    ) == inertia_contrib(mid_cols, b1.colliders@[q]) by {
                        let h3 = b1.colliders@[q];
                        assert(b1.colliders@.contains(h3));
                        assert(h3 != handle);
                        if mid_cols.arena.valid(h3.0) {
                            assert(self.arena.valid(h3.0));
                            assert(self.arena.at(h3.0) == mid_cols.arena.at(h3.0));
                        } else {
                            assert(!self.arena.valid(h3.0));
                        }
                    }
                    lemma_mass_sum_agree(
                        *self,
                        mid_cols,
                        b1.colliders@,
                        b1.colliders@.len() as int,
                    );
                    lemma_inertia_sum_agree(
                        *self,
                        mid_cols,
                        b1.colliders@,
                        b1.colliders@.len() as int,
                    );
                }
            }
        }
        removed_body
    }

    /// Store a collider attached to a parent body: the collider's parent
    /// is set to `rbd_handle`, the new handle is pushed onto the parent's
    /// collider list, and the parent's mass and inertia are recomputed.
    /// A stale parent handle leaves the body store untouched.
    pub fn insert_with_parent(
        &mut self,
        collider: Collider,
        rbd_handle: RigidBodyHandle,
        rbd_set: &mut RigidBodySet,
    ) -> (h: ColliderHandle)
        requires
            old(self).wf(),
            old(self).arena.slot_count() < 0xFFFF_FFFF,
            collider_wf(collider),
            old(rbd_set).wf(),
        ensures
            final(self).wf(),
            final(rbd_set).wf(),
            final(self).arena.valid(h.0),
            final(self).arena.at(h.0) == (Collider { parent: Some(rbd_handle), ..collider }),
            !old(self).arena.valid(h.0),
            final(self).arena.length() == old(self).arena.length() + 1,
            forall|h2: Index| h2 != h.0 ==> (final(self).arena.valid(h2) <==> old(self).arena.valid(h2)),
            forall|h2: Index|
                old(self).arena.valid(h2) ==> final(self).arena.at(h2) == old(self).arena.at(h2),
            forall|h2: Index| final(rbd_set).arena.valid(h2) <==> old(rbd_set).arena.valid(h2),
            final(rbd_set).arena.slot_count() == old(rbd_set).arena.slot_count(),
            forall|i: int|
                0 <= i < final(rbd_set).arena.slot_count() ==> #[trigger] final(rbd_set).arena.occ(i) == old(rbd_set).arena.occ(i) && final(rbd_set).arena.gen_at(i)
                    == old(rbd_set).arena.gen_at(i),
            !old(rbd_set).arena.valid(rbd_handle.0) ==> *final(rbd_set) == *old(rbd_set),
            old(rbd_set).arena.valid(rbd_handle.0) ==> {
                let b0 = old(rbd_set).arena.at(rbd_handle.0);
                let b1 = final(rbd_set).arena.at(rbd_handle.0);
                &&& b1.colliders@ == b0.colliders@.push(h)
                &&& b1.calculated_mass == mass_sum(
                    *final(self),
                    b1.colliders@,
                    b1.colliders@.len() as int,
                )
                &&& b1.inertia == inertia_sum(
                    *final(self),
                    b1.colliders@,
                    b1.colliders@.len() as int,
                )
                &&& b1 == (RigidBody {
                    colliders: b1.colliders,
                    calculated_mass: b1.calculated_mass,
                    inertia: b1.inertia,
                    ..b0
                })
            },
            forall|h2: Index|
                h2 != rbd_handle.0 && old(rbd_set).arena.valid(h2) ==> final(rbd_set).arena.at(h2)
                    == old(rbd_set).arena.at(h2),
    {
        let ghost pre_cols = *self;
        let ghost pre_bodies = *rbd_set;
        let col = Collider { parent: Some(rbd_handle), ..collider };
        let h = ColliderHandle(self.arena.insert(col));
        proof {
            assert forall|i: int| #[trigger] self.arena.occ(i) implies collider_wf(
                self.arena.val_at(i),
            ) by {
                if i == h.0.slot {
                    assert(self.arena.at(h.0) == col);
                    assert(collider_wf(col));
                } else if i < pre_cols.arena.slot_count() {
                    assert(pre_cols.arena.occ(i));
                } else {
                    assert(i < self.arena.slot_count());
                    assert(self.arena.slot_count() <= pre_cols.arena.slot_count() + 1);
                    assert(h.0.slot < self.arena.slot_count());
                    assert(false);
                }
            }
        }
        if rbd_set.contains(rbd_handle) {
            let body = rbd_set.get_mut(rbd_handle);
            let ghost b0 = *body;
            body.colliders.push(h);
            body.update_mass_and_inertia(self);
            proof {
                lemma_mass_sum_bounds(*self, b0.colliders@.push(h), b0.colliders@.len() as int + 1);
                lemma_inertia_sum_bounds(*self, b0.colliders@.push(h), b0.colliders@.len() as int + 1);
            }
        }
        proof {
            assert forall|i: int| #[trigger] rbd_set.arena.occ(i) implies
                crate::body::body_wf(rbd_set.arena.val_at(i)) by {
                if i != rbd_handle.0.slot {
                    assert(pre_bodies.arena.occ(i));
                }
            }
            assert forall|h2: Index|
                h2 != rbd_handle.0 && pre_bodies.arena.valid(h2) implies rbd_set.arena.at(h2)
                == pre_bodies.arena.at(h2) by {
                if h2.slot == rbd_handle.0.slot {
                    assert(pre_bodies.arena.gen_at(h2.slot as int) == h2.generation);
                }
            }
        }
        h
    }
}


/// A builder for colliders, with the engine's defaults: a half-unit
/// solid ball attached to nothing, interacting with everything.
pub struct ColliderBuilder {
    pub offset: Vec2,
    pub absolute_transform: Transform2,
    pub user_data: u128,
    pub parent: Option<RigidBodyHandle>,
    pub radius: i64,
    pub flags: ColliderFlags,
    pub collision_groups: InteractionGroups,
    pub shape: Shape,
}

impl ColliderBuilder {
    /// All staged scalars are within the world bound.
    pub open spec fn wf(self) -> bool {
        &&& in_lim_v(self.offset@)
        &&& in_lim_v(self.absolute_transform.translation@)
        &&& in_lim(self.absolute_transform.rotation as int)
        &&& 0 <= self.radius <= FX_LIM
    }

    /// The default collider.
    pub fn new() -> (r: ColliderBuilder)
        ensures
            r.wf(),
            r.parent is None,
            r.radius == FX_ONE / 2,
            r.flags.is_sensor == false,
    {
        ColliderBuilder {
            offset: Vec2 { x: 0, y: 0 },
            absolute_transform: Transform2 { translation: Vec2 { x: 0, y: 0 }, rotation: 0 },
            user_data: 0,
            parent: None,
            radius: FX_ONE / 2,
            flags: ColliderFlags { is_sensor: false },
            collision_groups: InteractionGroups::all(),
            shape: Shape::Ball { radius: FX_ONE / 2 },
        }
    }

    /// The local offset from the parent body.
    pub fn offset(self, offset: Vec2) -> (r: Self)
        requires
            self.wf(),
            in_lim_v(offset@),
        ensures
            r.wf(),
            r == (ColliderBuilder { offset, ..self }),
    {
        ColliderBuilder { offset, ..self }
    }

    /// The initial cached world pose.
    pub fn absolute_transform(self, absolute_transform: Transform2) -> (r: Self)
        requires
            self.wf(),
            in_lim_v(absolute_transform.translation@),
            in_lim(absolute_transform.rotation as int),
        ensures
            r.wf(),
            r == (ColliderBuilder { absolute_transform, ..self }),
    {
        ColliderBuilder { absolute_transform, ..self }
    }

    /// Opaque user data.
    pub fn user_data(self, user_data: u128) -> (r: Self)
        requires
            self.wf(),
        ensures
            r.wf(),
            r == (ColliderBuilder { user_data, ..self }),
    {
        ColliderBuilder { user_data, ..self }
    }

    /// The parent body handle.
    pub fn parent(self, parent: RigidBodyHandle) -> (r: Self)
        requires
            self.wf(),
        ensures
            r.wf(),
            r == (ColliderBuilder { parent: Some(parent), ..self }),
    {
        ColliderBuilder { parent: Some(parent), ..self }
    }

    /// The circle radius.
    pub fn radius(self, radius: i64) -> (r: Self)
        requires
            self.wf(),
            0 <= radius <= FX_LIM,
        ensures
            r.wf(),
            r == (ColliderBuilder { radius, ..self }),
    {
        ColliderBuilder { radius, ..self }
    }

    /// The filtering flags.
    pub fn flags(self, flags: ColliderFlags) -> (r: Self)
        requires
            self.wf(),
        ensures
            r.wf(),
            r == (ColliderBuilder { flags, ..self }),
    {
        ColliderBuilder { flags, ..self }
    }

    /// The collision-group filter.
    pub fn collision_groups(self, collision_groups: InteractionGroups) -> (r: Self)
        requires
            self.wf(),
        ensures
            r.wf(),
            r == (ColliderBuilder { collision_groups, ..self }),
    {
        ColliderBuilder { collision_groups, ..self }
    }

    /// The shape.
    pub fn shape(self, shape: Shape) -> (r: Self)
        requires
            self.wf(),
        ensures
            r.wf(),
            r == (ColliderBuilder { shape, ..self }),
    {
        ColliderBuilder { shape, ..self }
    }

    /// The staged collider.
    pub fn build(self) -> (r: Collider)
        requires
            self.wf(),
        ensures
            collider_wf(r),
            r == (Collider {
                offset: self.offset,
                absolute_transform: self.absolute_transform,
                user_data: self.user_data,
                parent: self.parent,
                radius: self.radius,
                flags: self.flags,
                collision_groups: self.collision_groups,
                shape: self.shape,
            }),
    {
        Collider {
            offset: self.offset,
            absolute_transform: self.absolute_transform,
            user_data: self.user_data,
            parent: self.parent,
            radius: self.radius,
            flags: self.flags,
            collision_groups: self.collision_groups,
            shape: self.shape,
        }
    }
}

} // verus!

//! Generational slot table.
//!
//! Every store of the engine hands out `Index` handles: a slot number paired
//! with a generation counter.  A slot's generation is bumped each time the
//! slot is reused, so a handle to a removed value can never alias a value
//! inserted later: lookups on stale handles return "not found", never a
//! wrong value.

use vstd::prelude::*;

verus! {

/// A handle: slot index plus generation counter.
#[derive(Clone, Copy, PartialEq, Eq, Hash, Structural, Debug)]
pub struct Index {
    pub slot: u32,
    pub generation: u32,
}

impl Index {
    /// The packed 64-bit form: generation in the high half, slot in the low.
    pub open spec fn bits(self) -> int {
        self.generation * 0x1_0000_0000 + self.slot
    }

    /// Pack the handle into 64 bits.
    pub fn to_bits(self) -> (r: u64)
        ensures
            r == self.bits(),
    {
        (self.generation as u64) * 0x1_0000_0000 + (self.slot as u64)
    }

    /// Unpack a handle from its 64-bit form.
    pub fn from_bits(bits: u64) -> (r: Index)
        ensures
            r.bits() == bits,
    {
        proof {
            vstd::arithmetic::div_mod::lemma_fundamental_div_mod(bits as int, 0x1_0000_0000);
            vstd::arithmetic::div_mod::lemma_mod_bound(bits as int, 0x1_0000_0000);
            vstd::arithmetic::div_mod::lemma_div_pos_is_pos(bits as int, 0x1_0000_0000);
            vstd::arithmetic::div_mod::lemma_div_is_ordered_by_denominator(
                bits as int,
                1,
                0x1_0000_0000,
            );
            vstd::arithmetic::div_mod::lemma_div_basics(bits as int);
        }
        Index {
            slot: (bits % 0x1_0000_0000) as u32,
            generation: (bits / 0x1_0000_0000) as u32,
        }
    }

    /// Packing is injective: equal bits means equal handles.
    pub proof fn lemma_bits_injective(a: Index, b: Index)
        requires
            a.bits() == b.bits(),
        ensures
            a == b,
    {
        vstd::arithmetic::div_mod::lemma_fundamental_div_mod_converse(
            a.bits(),
            0x1_0000_0000,
            a.generation as int,
            a.slot as int,
        );
        vstd::arithmetic::div_mod::lemma_fundamental_div_mod_converse(
            b.bits(),
            0x1_0000_0000,
            b.generation as int,
            b.slot as int,
        );
    }
}

/// One slot: its current generation and, when occupied, its value.
struct Slot<T> {
    generation: u32,
    value: Option<T>,
}

/// The number of occupied slots in a slot sequence.
spec fn n_occ<T>(s: Seq<Slot<T>>) -> int
    decreases s.len(),
{
    if s.len() <= 0 {
        0
    } else {
        n_occ(s.drop_last()) + if s.last().value is Some {
            1int
        } else {
            0int
        }
    }
}

proof fn lemma_n_occ_bounds<T>(s: Seq<Slot<T>>)
    ensures
        0 <= n_occ(s) <= s.len(),
    decreases s.len(),
{
    if s.len() > 0 {
        lemma_n_occ_bounds(s.drop_last());
    }
}

proof fn lemma_n_occ_update<T>(s: Seq<Slot<T>>, i: int, x: Slot<T>)
    requires
        0 <= i < s.len(),
    ensures
        n_occ(s.update(i, x)) == n_occ(s) + (if x.value is Some {
            1int
        } else {
            0int
        }) - (if s[i].value is Some {
            1int
        } else {
            0int
        }),
    decreases s.len(),
{
    let t = s.update(i, x);
    if i == s.len() - 1 {
        assert(t.drop_last() =~= s.drop_last());
    } else {
        assert(t.drop_last() =~= s.drop_last().update(i, x));
        lemma_n_occ_update(s.drop_last(), i, x);
    }
}

proof fn lemma_n_occ_push<T>(s: Seq<Slot<T>>, x: Slot<T>)
    ensures
        n_occ(s.push(x)) == n_occ(s) + (if x.value is Some {
            1int
        } else {
            0int
        }),
{
    assert(s.push(x).drop_last() =~= s);
}

/// A consistent arena never has more slots than handles can name.
pub broadcast proof fn lemma_slot_count_bound<T>(a: Arena<T>)
    ensures
        #[trigger] a.wf() ==> a.slot_count() <= 0xFFFF_FFFF,
{
}

/// Stored generations always fit in 32 bits.
pub broadcast proof fn lemma_gen_range<T>(a: Arena<T>, i: int)
    requires
        0 <= i < a.slot_count(),
    ensures
        0 <= #[trigger] a.gen_at(i) < 0x1_0000_0000,
{
}

/// An occupied slot number is always below the slot count.
pub broadcast proof fn lemma_occ_range<T>(a: Arena<T>, i: int)
    ensures
        #[trigger] a.occ(i) ==> 0 <= i < a.slot_count(),
{
}

/// A generational arena: stable handles over reusable slots.
pub struct Arena<T> {
    slots: Vec<Slot<T>>,
    free: Vec<u32>,
    count: usize,
}

impl<T> Arena<T> {
    /// How many slots the arena has ever allocated.
    pub closed spec fn slot_count(self) -> int {
        self.slots@.len() as int
    }

    /// Slot `i` currently holds a value.
    pub closed spec fn occ(self, i: int) -> bool {
        0 <= i < self.slots@.len() && self.slots@[i].value is Some
    }

    /// The generation of slot `i`.
    pub closed spec fn gen_at(self, i: int) -> int {
        self.slots@[i].generation as int
    }

    /// The value in slot `i` (meaningful when `occ(i)`).
    pub closed spec fn val_at(self, i: int) -> T {
        self.slots@[i].value->0
    }

    /// `h` refers to a live value.
    pub open spec fn valid(self, h: Index) -> bool {
        self.occ(h.slot as int) && self.gen_at(h.slot as int) == h.generation
    }

    /// The value `h` refers to (meaningful when `valid(h)`).
    pub open spec fn at(self, h: Index) -> T {
        self.val_at(h.slot as int)
    }

    /// The number of live values.
    pub closed spec fn length(self) -> int {
        n_occ(self.slots@)
    }

    /// Internal consistency: the free list holds exactly the reusable
    /// vacant slots, once each, and the live count is right.
    pub closed spec fn wf(self) -> bool {
        &&& self.slots@.len() <= 0xFFFF_FFFF
        &&& self.count == n_occ(self.slots@)
        &&& forall|k: int|
            0 <= k < self.free@.len() ==> {
                &&& #[trigger] self.free@[k] < self.slots@.len()
                &&& self.slots@[self.free@[k] as int].value is None
                &&& self.slots@[self.free@[k] as int].generation < 0xFFFF_FFFFu32
            }
        &&& forall|k1: int, k2: int|
            0 <= k1 < k2 < self.free@.len() ==> #[trigger] self.free@[k1]
                != #[trigger] self.free@[k2]
        &&& forall|i: int|
            0 <= i < self.slots@.len() && self.slots@[i].value is None
                && #[trigger] self.slots@[i].generation < 0xFFFF_FFFFu32 ==> self.free@.contains(
                i as u32,
            )
    }

    /// An empty arena.
    pub fn new() -> (r: Arena<T>)
        ensures
            r.wf(),
            r.slot_count() == 0,
            r.length() == 0,
            forall|h: Index| !r.valid(h),
            forall|i: int| !r.occ(i),
    {
        Arena { slots: Vec::new(), free: Vec::new(), count: 0 }
    }

    /// The number of live values.
    pub fn len(&self) -> (r: usize)
        requires
            self.wf(),
        ensures
            r == self.length(),
    {
        self.count
    }

    /// The number of slots; handle slots are always below this.
    pub fn num_slots(&self) -> (r: usize)
        ensures
            r == self.slot_count(),
    {
        self.slots.len()
    }

    /// Store a value, returning a fresh handle to it.  Every live handle
    /// stays live and unchanged, and no stale handle is revived.
    pub fn insert(&mut self, value: T) -> (h: Index)
        requires
            old(self).wf(),
            old(self).slot_count() < 0xFFFF_FFFF,
        ensures
            final(self).wf(),
            final(self).valid(h),
            final(self).at(h) == value,
            !old(self).valid(h),
            final(self).length() == old(self).length() + 1,
            old(self).slot_count() <= final(self).slot_count() <= old(self).slot_count() + 1,
            h.slot < final(self).slot_count(),
            final(self).slot_count() == old(self).slot_count() + 1 ==> h.slot == old(
                self,
            ).slot_count(),
            !old(self).occ(h.slot as int),
            forall|i: int|
                0 <= i < old(self).slot_count() && i != h.slot ==> {
                    &&& #[trigger] final(self).occ(i) == old(self).occ(i)
                    &&& final(self).gen_at(i) == old(self).gen_at(i)
                    &&& (old(self).occ(i) ==> final(self).val_at(i) == old(self).val_at(i))
                },
            forall|h2: Index| h2 != h ==> (final(self).valid(h2) <==> old(self).valid(h2)),
            forall|h2: Index| old(self).valid(h2) ==> final(self).at(h2) == old(self).at(h2),
    {
        proof {
            lemma_n_occ_bounds(self.slots@);
        }
        let popped = self.free.pop();
        match popped {
            Some(s) => {
                let si = s as usize;
                let slot = &mut self.slots[si];
                let g = slot.generation + 1;
                slot.generation = g;
                slot.value = Some(value);
                self.count = self.count + 1;
                let h = Index { slot: s, generation: g };
                proof {
                    lemma_n_occ_update(
                        old(self).slots@,
                        si as int,
                        self.slots@[si as int],
                    );
                    assert forall|i: int|
                        0 <= i < self.slots@.len() && self.slots@[i].value is None
                            && #[trigger] self.slots@[i].generation < 0xFFFF_FFFFu32 implies self
                        .free@.contains(i as u32) by {
                        assert(old(self).free@.contains(i as u32));
                        let k = choose|k: int|
                            0 <= k < old(self).free@.len() && old(self).free@[k] == i as u32;
                        assert(k < old(self).free@.len() - 1);
                        assert(self.free@[k] == i as u32);
                    }
                }
                h
            },
            None => {
                let s = self.slots.len();
                self.slots.push(Slot { generation: 0, value: Some(value) });
                self.count = self.count + 1;
                let h = Index { slot: s as u32, generation: 0 };
                proof {
                    lemma_n_occ_push(old(self).slots@, self.slots@.last());
                    assert forall|i: int|
                        0 <= i < self.slots@.len() && self.slots@[i].value is None
                            && #[trigger] self.slots@[i].generation < 0xFFFF_FFFFu32 implies self
                        .free@.contains(i as u32) by {
                        assert(i < old(self).slots@.len());
                        assert(old(self).free@.contains(i as u32));
                    }
                }
                h
            },
        }
    }

    /// Look up a live handle; stale or removed handles yield `None`.
    pub fn get(&self, h: Index) -> (r: Option<&T>)
        ensures
            match r {
                Some(v) => self.valid(h) && *v == self.at(h),
                None => !self.valid(h),
            },
    {
        let si = h.slot as usize;
        if si < self.slots.len() {
            let slot = &self.slots[si];
            if slot.generation == h.generation {
                match &slot.value {
                    Some(v) => Some(v),
                    None => None,
                }
            } else {
                None
            }
        } else {
            None
        }
    }

    /// Whether `h` is live.
    pub fn contains(&self, h: Index) -> (r: bool)
        ensures
            r == self.valid(h),
    {
        let si = h.slot as usize;
        if si < self.slots.len() {
            let slot = &self.slots[si];
            slot.generation == h.generation && slot.value.is_some()
        } else {
            false
        }
    }

    /// Mutable access to the value behind a live handle.
    pub fn borrow_mut(&mut self, h: Index) -> (r: &mut T)
        requires
            old(self).wf(),
            old(self).valid(h),
        ensures
            *r == old(self).at(h),
            final(self).wf(),
            final(self).valid(h),
            final(self).at(h) == *final(r),
            final(self).slot_count() == old(self).slot_count(),
            final(self).length() == old(self).length(),
            forall|i: int|
                0 <= i < final(self).slot_count() && i != h.slot ==> {
                    &&& #[trigger] final(self).occ(i) == old(self).occ(i)
                    &&& final(self).gen_at(i) == old(self).gen_at(i)
                    &&& (old(self).occ(i) ==> final(self).val_at(i) == old(self).val_at(i))
                },
            final(self).gen_at(h.slot as int) == old(self).gen_at(h.slot as int),
            forall|h2: Index| final(self).valid(h2) <==> old(self).valid(h2),
    {
        let si = h.slot as usize;
        let slot = &mut self.slots[si];
        proof {
            lemma_n_occ_update(old(self).slots@, si as int, *final(slot));
        }
        match &mut slot.value {
            Some(v) => v,
            None => {
                proof {
                    assert(false);
                }
                unreached()
            },
        }
    }

    /// Mutable access to the values behind two live handles at once.
    /// The handles must name different slots: the two references can
    /// never alias.  (A caller holding one handle twice reads it once
    /// and writes it back instead.)
    #[verifier::rlimit(100)]
    pub fn get2_mut(&mut self, h1: Index, h2: Index) -> ((ra, rb): (&mut T, &mut T))
        requires
            old(self).wf(),
            old(self).valid(h1),
            old(self).valid(h2),
            h1.slot != h2.slot,
        ensures
            *ra == old(self).at(h1),
            *rb == old(self).at(h2),
            final(self).wf(),
            final(self).valid(h1),
            final(self).valid(h2),
            final(self).at(h1) == *final(ra),
            final(self).at(h2) == *final(rb),
            final(self).slot_count() == old(self).slot_count(),
            final(self).length() == old(self).length(),
            forall|i: int|
                0 <= i < final(self).slot_count() && i != h1.slot && i != h2.slot ==> {
                    &&& #[trigger] final(self).occ(i) == old(self).occ(i)
                    &&& final(self).gen_at(i) == old(self).gen_at(i)
                    &&& (old(self).occ(i) ==> final(self).val_at(i) == old(self).val_at(i))
                },
            final(self).gen_at(h1.slot as int) == old(self).gen_at(h1.slot as int),
            final(self).gen_at(h2.slot as int) == old(self).gen_at(h2.slot as int),
            forall|h3: Index| final(self).valid(h3) <==> old(self).valid(h3),
    {
        let ghost pre = self.slots@;
        let (lo, hi) = if h1.slot < h2.slot {
            (h1.slot as usize, h2.slot as usize)
        } else {
            (h2.slot as usize, h1.slot as usize)
        };
        let slice = self.slots.as_mut_slice();
        let (left, right) = slice.split_at_mut(hi);
        let (_, at_lo) = left.split_at_mut(lo);
        let slot_lo: &mut Slot<T> = match at_lo.first_mut() {
            Some(s) => s,
            None => {
                proof {
                    assert(false);
                }
                unreached()
            },
        };
        let slot_hi: &mut Slot<T> = match right.first_mut() {
            Some(s) => s,
            None => {
                proof {
                    assert(false);
                }
                unreached()
            },
        };
        let v_lo: &mut T = match &mut slot_lo.value {
            Some(v) => v,
            None => {
                proof {
                    assert(false);
                }
                unreached()
            },
        };
        let v_hi: &mut T = match &mut slot_hi.value {
            Some(v) => v,
            None => {
                proof {
                    assert(false);
                }
                unreached()
            },
        };
        let r = if h1.slot < h2.slot {
            (v_lo, v_hi)
        } else {
            (v_hi, v_lo)
        };
        proof {
            let lo_i = lo as int;
            let hi_i = hi as int;
            let fs = after_borrow(self).slots@;
            assert(fs[lo_i].value is Some && fs[hi_i].value is Some);
            assert(pre.update(lo_i, fs[lo_i]).update(hi_i, fs[hi_i]) =~= fs);
            lemma_n_occ_update(pre, lo_i, fs[lo_i]);
            lemma_n_occ_update(pre.update(lo_i, fs[lo_i]), hi_i, fs[hi_i]);
        }
        r
    }

    /// Mutable access to a slot by number (for whole-table passes).
    pub fn borrow_slot_mut(&mut self, i: usize) -> (r: &mut T)
        requires
            old(self).wf(),
            old(self).occ(i as int),
        ensures
            *r == old(self).val_at(i as int),
            final(self).wf(),
            final(self).occ(i as int),
            final(self).val_at(i as int) == *final(r),
            final(self).slot_count() == old(self).slot_count(),
            final(self).length() == old(self).length(),
            forall|j: int|
                0 <= j < final(self).slot_count() && j != i ==> {
                    &&& #[trigger] final(self).occ(j) == old(self).occ(j)
                    &&& final(self).gen_at(j) == old(self).gen_at(j)
                    &&& (old(self).occ(j) ==> final(self).val_at(j) == old(self).val_at(j))
                },
            final(self).gen_at(i as int) == old(self).gen_at(i as int),
    {
        let slot = &mut self.slots[i];
        proof {
            lemma_n_occ_update(old(self).slots@, i as int, *final(slot));
        }
        match &mut slot.value {
            Some(v) => v,
            None => {
                proof {
                    assert(false);
                }
                unreached()
            },
        }
    }

    /// Shared access to a slot by number; `None` on a vacant slot.
    pub fn get_slot(&self, i: usize) -> (r: Option<&T>)
        ensures
            match r {
                Some(v) => self.occ(i as int) && *v == self.val_at(i as int),
                None => !self.occ(i as int),
            },
    {
        if i < self.slots.len() {
            match &self.slots[i].value {
                Some(v) => Some(v),
                None => None,
            }
        } else {
            None
        }
    }

    /// The live handle for an occupied slot.
    pub fn handle_at(&self, i: usize) -> (h: Index)
        requires
            self.wf(),
            self.occ(i as int),
        ensures
            self.valid(h),
            h.slot == i,
            h.generation == self.gen_at(i as int),
            self.at(h) == self.val_at(i as int),
    {
        Index { slot: i as u32, generation: self.slots[i].generation }
    }

    /// Remove the value behind a handle; stale handles remove nothing.
    /// Other live handles are untouched, and `h` is dead afterwards.
    pub fn remove(&mut self, h: Index) -> (r: Option<T>)
        requires
            old(self).wf(),
        ensures
            final(self).wf(),
            final(self).slot_count() == old(self).slot_count(),
            match r {
                Some(v) => {
                    &&& old(self).valid(h)
                    &&& v == old(self).at(h)
                    &&& !final(self).valid(h)
                    &&& !final(self).occ(h.slot as int)
                    &&& final(self).length() == old(self).length() - 1
                    &&& forall|i: int|
                        0 <= i < final(self).slot_count() && i != h.slot ==> {
                            &&& #[trigger] final(self).occ(i) == old(self).occ(i)
                            &&& final(self).gen_at(i) == old(self).gen_at(i)
                            &&& (old(self).occ(i) ==> final(self).val_at(i) == old(self).val_at(i))
                        }
                    &&& forall|h2: Index| h2 != h && old(self).valid(h2) ==> final(self).valid(h2)
                    &&& forall|h2: Index| final(self).valid(h2) ==> (old(self).valid(h2) && h2 != h)
                    &&& forall|h2: Index| final(self).valid(h2) ==> final(self).at(h2) == old(self).at(h2)
                },
                None => {
                    &&& !old(self).valid(h)
                    &&& *final(self) == *old(self)
                },
            },
    {
        let si = h.slot as usize;
        if si < self.slots.len() {
            let valid = {
                let slot = &self.slots[si];
                slot.generation == h.generation && slot.value.is_some()
            };
            if valid {
                proof {
                    lemma_n_occ_bounds(old(self).slots@);
                    lemma_n_occ_update(
                        old(self).slots@,
                        si as int,
                        Slot { generation: old(self).slots@[si as int].generation, value: None },
                    );
                    lemma_n_occ_bounds(
                        old(self).slots@.update(
                            si as int,
                            Slot {
                                generation: old(self).slots@[si as int].generation,
                                value: None,
                            },
                        ),
                    );
                }
                let push_free = self.slots[si].generation < 0xFFFF_FFFFu32;
                let slot = &mut self.slots[si];
                let v = slot.value.take();
                self.count = self.count - 1;
                if push_free {
                    self.free.push(h.slot);
                }
                proof {
                    assert forall|i: int|
                        0 <= i < self.slots@.len() && self.slots@[i].value is None
                            && #[trigger] self.slots@[i].generation < 0xFFFF_FFFFu32 implies self
                        .free@.contains(i as u32) by {
                        if i == si as int {
                            assert(push_free);
                            assert(self.free@.last() == i as u32);
                        } else {
                            assert(old(self).free@.contains(i as u32));
                            let k = choose|k: int|
                                0 <= k < old(self).free@.len() && old(self).free@[k] == i as u32;
                            assert(self.free@[k] == i as u32);
                        }
                    }
                }
                v
            } else {
                None
            }
        } else {
            None
        }
    }
}

} // verus!

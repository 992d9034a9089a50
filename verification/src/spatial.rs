//! Uniform-grid broad-phase index.
//!
//! Points (id, position, radius) are bucketed by the grid cell their
//! position falls in; a query scans the 3-by-3 block of cells around the
//! query position and keeps the points whose distance to it is at most the
//! query radius plus their own radius.  The scan is exact for objects
//! smaller than one cell; an object spanning more than a cell width can be
//! missed, a documented approximation of this index.
//!
//! The standing invariant: a point's bucket is always the bucket of the
//! cell of its recorded position, so every position change goes through
//! `move_point`.

use crate::fx::{fdiv64, FX_LIM};
use crate::vec2::{in_lim_v, v2_add, v2_clamp, v_len_sq, v_sub, V2i, Vec2};
use std::collections::HashMap;
use vstd::prelude::*;

verus! {

broadcast use vstd::std_specs::hash::group_hash_axioms;

/// One indexed point.
#[derive(Clone, Copy, PartialEq, Eq, Structural, Debug)]
pub struct CellPoint {
    pub id: u64,
    pub position: Vec2,
    pub radius: i64,
}

/// The cell a position falls in: floor of each coordinate over the cell
/// size.
pub open spec fn cell_of(cs: int, p: V2i) -> (int, int) {
    (p.x / cs, p.y / cs)
}

/// The packed 64-bit key of a cell.
pub open spec fn key_of(c: (int, int)) -> int {
    (c.0 + 0x8000_0000) * 0x1_0000_0000 + (c.1 + 0x8000_0000)
}

/// Cell coordinates that can arise from in-bound positions, with one cell
/// of margin for neighbourhood scans.
pub open spec fn cell_in_range(c: (int, int)) -> bool {
    -0x4000_0001 <= c.0 <= 0x4000_0001 && -0x4000_0001 <= c.1 <= 0x4000_0001
}

/// `b` is within one cell of `a` on both axes.
pub open spec fn cell_near(a: (int, int), b: (int, int)) -> bool {
    -1 <= a.0 - b.0 <= 1 && -1 <= a.1 - b.1 <= 1
}

/// The position of cell `c` in a row-major walk of the 3-by-3 block
/// around `ctr`.
pub open spec fn cell_lin(ctr: (int, int), c: (int, int)) -> int {
    (c.0 - ctr.0 + 1) * 3 + (c.1 - ctr.1 + 1)
}

/// Squared distance between two positions.
pub open spec fn dist_sq(a: V2i, b: V2i) -> int {
    v_len_sq(v_sub(a, b))
}

/// A point is a hit for a query at `pos` with radius `qr`: it lies in the
/// scanned neighbourhood and within `qr` plus its own radius.
pub open spec fn query_hit(cs: int, p: CellPoint, pos: V2i, qr: int) -> bool {
    &&& cell_near(cell_of(cs, p.position@), cell_of(cs, pos))
    &&& dist_sq(p.position@, pos) <= (qr + p.radius) * (qr + p.radius)
}

/// The cell of an in-bound position is in range.
pub proof fn lemma_cell_bound(x: int, cs: int)
    requires
        -0x8000_0000 <= x <= 0x8000_0000,
        cs >= 2,
    ensures
        -0x4000_0000 <= x / cs <= 0x4000_0000,
{
    let q = x / cs;
    let r = x % cs;
    vstd::arithmetic::div_mod::lemma_fundamental_div_mod(x, cs);
    vstd::arithmetic::div_mod::lemma_mod_bound(x, cs);
    if q > 0x4000_0000 {
        assert(cs * q + r > 0x8000_0000) by (nonlinear_arith)
            requires q > 0x4000_0000 && cs >= 2 && r >= 0;
    }
    if q < -0x4000_0000 {
        assert(cs * q + r < -0x8000_0000) by (nonlinear_arith)
            requires q < -0x4000_0000 && cs >= 2 && r < cs;
    }
}

/// Packing of in-range cells is injective.
pub proof fn lemma_key_injective(a: (int, int), b: (int, int))
    requires
        cell_in_range(a),
        cell_in_range(b),
        key_of(a) == key_of(b),
    ensures
        a == b,
{
    vstd::arithmetic::div_mod::lemma_fundamental_div_mod_converse(
        key_of(a),
        0x1_0000_0000,
        a.0 + 0x8000_0000,
        a.1 + 0x8000_0000,
    );
    vstd::arithmetic::div_mod::lemma_fundamental_div_mod_converse(
        key_of(b),
        0x1_0000_0000,
        b.0 + 0x8000_0000,
        b.1 + 0x8000_0000,
    );
}


/// The packed key of an in-bound point's cell fits in 64 bits.
pub proof fn lemma_pkey_range(h: SpatialHash, q: CellPoint)
    requires
        2 <= h.cell_size_s(),
        in_lim_v(q.position@),
    ensures
        0 <= h.pkey(q) < 0x1_0000_0000_0000_0000,
{
    lemma_cell_bound(q.position@.x, h.cell_size_s());
    lemma_cell_bound(q.position@.y, h.cell_size_s());
}

/// Uniform-grid spatial index over circular extents.
pub struct SpatialHash {
    cell_size: i64,
    next_id: u64,
    points: HashMap<u64, CellPoint>,
    grid: HashMap<u64, Vec<u64>>,
}

impl SpatialHash {
    /// The grid cell size, in ticks.
    pub closed spec fn cell_size_s(self) -> int {
        self.cell_size as int
    }

    /// The id the next anonymous insert will use.
    pub closed spec fn next_id_s(self) -> int {
        self.next_id as int
    }

    /// The indexed points, by id.
    pub closed spec fn points_s(self) -> Map<u64, CellPoint> {
        self.points@
    }

    /// The packed key of the cell a point's position falls in.
    pub open spec fn pkey(self, p: CellPoint) -> int {
        key_of(cell_of(self.cell_size_s(), p.position@))
    }

    /// The bucket of ids stored under a packed cell key.
    pub closed spec fn bucket(self, k: int) -> Seq<u64> {
        if self.grid@.contains_key(k as u64) {
            self.grid@[k as u64]@
        } else {
            Seq::empty()
        }
    }

    /// Every point is in bounds and sits in exactly the bucket of its own
    /// cell, and buckets hold each id at most once.
    pub closed spec fn wf(self) -> bool {
        &&& 2 <= self.cell_size <= FX_LIM
        &&& forall|id: u64|
            #[trigger] self.points@.contains_key(id) ==> {
                let p = self.points@[id];
                &&& p.id == id
                &&& in_lim_v(p.position@)
                &&& 0 <= p.radius <= FX_LIM
                &&& self.bucket(self.pkey(p)).contains(id)
            }
        &&& forall|k: u64, j: int|
            #![trigger self.grid@[k]@[j]]
            self.grid@.contains_key(k) && 0 <= j < self.grid@[k]@.len() ==> {
                let id = self.grid@[k]@[j];
                &&& self.points@.contains_key(id)
                &&& self.pkey(self.points@[id]) == k
            }
        &&& forall|k: u64, j1: int, j2: int|
            #![trigger self.grid@[k]@[j1], self.grid@[k]@[j2]]
            self.grid@.contains_key(k) && 0 <= j1 < j2 < self.grid@[k]@.len()
                ==> self.grid@[k]@[j1] != self.grid@[k]@[j2]
    }

    /// An empty grid with the given cell size (at least two ticks, so that
    /// cell coordinates fit their type for every representable position).
    pub fn new(cell_size: i64) -> (r: SpatialHash)
        requires
            2 <= cell_size <= FX_LIM,
        ensures
            r.wf(),
            r.cell_size_s() == cell_size,
            r.next_id_s() == 0,
            r.points_s() == Map::<u64, CellPoint>::empty(),
    {
        SpatialHash {
            cell_size,
            next_id: 0,
            points: HashMap::new(),
            grid: HashMap::new(),
        }
    }

    /// The id the next anonymous insert will use.
    pub fn next_id(&self) -> (r: u64)
        ensures
            r == self.next_id_s(),
    {
        self.next_id
    }

    /// The point stored under an id, if any.
    pub fn get_point(&self, id: u64) -> (r: Option<CellPoint>)
        ensures
            match r {
                Some(p) => self.points_s().contains_key(id) && p == self.points_s()[id],
                None => !self.points_s().contains_key(id),
            },
    {
        match self.points.get(&id) {
            Some(p) => Some(*p),
            None => None,
        }
    }

    /// The cell the given position falls in.
    pub fn get_cell_coords(&self, position: Vec2) -> (r: (i32, i32))
        requires
            self.wf(),
            in_lim_v(position@),
        ensures
            (r.0 as int, r.1 as int) == cell_of(self.cell_size_s(), position@),
            -0x4000_0000 <= r.0 as int <= 0x4000_0000,
            -0x4000_0000 <= r.1 as int <= 0x4000_0000,
            cell_in_range((r.0 as int, r.1 as int)),
    {
        proof {
            lemma_cell_bound(position@.x, self.cell_size as int);
            lemma_cell_bound(position@.y, self.cell_size as int);
        }
        let cx = fdiv64(position.x, self.cell_size);
        let cy = fdiv64(position.y, self.cell_size);
        (cx as i32, cy as i32)
    }

    /// Pack a cell into its grid key.
    fn pack_cell(cell: (i32, i32)) -> (r: u64)
        requires
            cell_in_range((cell.0 as int, cell.1 as int)),
        ensures
            r == key_of((cell.0 as int, cell.1 as int)),
    {
        ((cell.0 as i64 + 0x8000_0000) as u64) * 0x1_0000_0000 + ((cell.1 as i64
            + 0x8000_0000) as u64)
    }

    /// Take one id out of the bucket under `key`.
    fn bucket_remove(&mut self, key: u64, id: u64)
        requires
            old(self).grid@.contains_key(key),
            old(self).grid@[key]@.contains(id),
            forall|j1: int, j2: int|
                0 <= j1 < j2 < old(self).grid@[key]@.len() ==> #[trigger] old(self).grid@[key]@[j1] != #[trigger] old(self).grid@[key]@[j2],
        ensures
            final(self).points@ == old(self).points@,
            final(self).cell_size == old(self).cell_size,
            final(self).next_id == old(self).next_id,
            final(self).grid@.dom() == old(self).grid@.dom(),
            forall|k: u64|
                k != key && old(self).grid@.contains_key(k) ==> #[trigger] final(self).grid@[k]
                    == old(self).grid@[k],
            final(self).grid@[key]@.len() == old(self).grid@[key]@.len() - 1,
            forall|x: u64|
                #[trigger] final(self).grid@[key]@.contains(x) <==> (old(self).grid@[key]@.contains(x) && x != id),
            forall|j1: int, j2: int|
                0 <= j1 < j2 < final(self).grid@[key]@.len() ==> #[trigger] final(self).grid@[key]@[j1] != #[trigger] final(self).grid@[key]@[j2],
    {
        let mut bucket = self.grid.remove(&key).unwrap();
        let ghost orig = bucket@;
        let mut i: usize = 0;
        let n = bucket.len();
        while i < n
            invariant
                bucket@ == orig,
                n == orig.len(),
                0 <= i <= n,
                orig.contains(id),
                forall|j: int| 0 <= j < i ==> orig[j] != id,
            ensures
                0 <= i < n,
                orig[i as int] == id,
            decreases n - i,
        {
            if bucket[i] == id {
                break;
            }
            i = i + 1;
        }
        bucket.swap_remove(i);
        self.grid.insert(key, bucket);
        proof {
            let newb = final(self).grid@[key]@;
            let oldb = orig;
            assert forall|x: u64| #[trigger] newb.contains(x) implies (oldb.contains(x) && x
                != id) by {
                let j = choose|j: int| 0 <= j < newb.len() && newb[j] == x;
                if j < i {
                    assert(oldb[j] == x);
                } else {
                    assert(newb[j] == oldb[if j == i { oldb.len() - 1 } else { j as int }]);
                }
            }
            assert forall|x: u64| oldb.contains(x) && x != id implies #[trigger] newb.contains(
                x,
            ) by {
                let j = choose|j: int| 0 <= j < oldb.len() && oldb[j] == x;
                if j == i {
                    assert(false);
                } else if j == oldb.len() - 1 {
                    assert(i < oldb.len() - 1);
                    assert(newb[i as int] == x);
                } else {
                    assert(newb[j] == x);
                }
            }
            assert forall|j1: int, j2: int|
                0 <= j1 < j2 < newb.len() implies #[trigger] newb[j1] != #[trigger] newb[j2] by {
                let m1 = if j1 == i { oldb.len() - 1 } else { j1 as int };
                let m2 = if j2 == i { oldb.len() - 1 } else { j2 as int };
                assert(newb[j1] == oldb[m1] && newb[j2] == oldb[m2]);
            }
            assert(final(self).grid@.dom() =~= old(self).grid@.dom());
        }
    }

    /// Put an id into the bucket under `key`, creating the bucket if need
    /// be.
    fn bucket_add(&mut self, key: u64, id: u64)
        requires
            !old(self).bucket(key as int).contains(id),
        ensures
            final(self).points@ == old(self).points@,
            final(self).cell_size == old(self).cell_size,
            final(self).next_id == old(self).next_id,
            final(self).grid@.contains_key(key),
            forall|k: u64|
                k != key && old(self).grid@.contains_key(k) ==> #[trigger] final(self).grid@[k]
                    == old(self).grid@[k] && final(self).grid@.contains_key(k),
            forall|k: u64|
                k != key && final(self).grid@.contains_key(k) ==> old(self).grid@.contains_key(k),
            final(self).grid@[key]@ == old(self).bucket(key as int).push(id),
    {
        let existing = self.grid.remove(&key);
        match existing {
            Some(mut bucket) => {
                bucket.push(id);
                self.grid.insert(key, bucket);
            },
            None => {
                let mut bucket: Vec<u64> = Vec::new();
                bucket.push(id);
                self.grid.insert(key, bucket);
                proof {
                    assert(old(self).bucket(key as int).push(id) =~= final(self).grid@[key]@);
                }
            },
        }
    }

    /// Record a new point under a caller-chosen id and file it in its
    /// cell's bucket.  The id must be fresh: double inserts are the
    /// caller's fault and are ruled out here.
    pub fn insert_with_id(&mut self, id: u64, position: Vec2, radius: i64)
        requires
            old(self).wf(),
            !old(self).points_s().contains_key(id),
            in_lim_v(position@),
            0 <= radius <= FX_LIM,
        ensures
            final(self).wf(),
            final(self).points_s() == old(self).points_s().insert(
                id,
                CellPoint { id, position, radius },
            ),
            final(self).cell_size_s() == old(self).cell_size_s(),
            final(self).next_id_s() == old(self).next_id_s(),
    {
        let p = CellPoint { id, position, radius };
        let cell = self.get_cell_coords(position);
        let key = Self::pack_cell(cell);
        proof {
            if old(self).bucket(key as int).contains(id) {
                assert(old(self).points@.contains_key(id));
            }
        }
        self.bucket_add(key, id);
        self.points.insert(id, p);
        proof {
            self.lemma_wf_after_point_add(*old(self), id, p, key);
        }
    }

    /// Re-establishing the invariant after adding `id` to bucket `key`
    /// and recording `p` under `id`.
    proof fn lemma_wf_after_point_add(self, pre: SpatialHash, id: u64, p: CellPoint, key: u64)
        requires
            pre.wf(),
            !pre.points@.contains_key(id),
            p.id == id,
            in_lim_v(p.position@),
            0 <= p.radius <= FX_LIM,
            self.cell_size == pre.cell_size,
            self.pkey(p) == key,
            self.points@ == pre.points@.insert(id, p),
            self.grid@.contains_key(key),
            self.grid@[key]@ == pre.bucket(key as int).push(id),
            forall|k: u64|
                k != key && pre.grid@.contains_key(k) ==> #[trigger] self.grid@[k] == pre.grid@[k]
                    && self.grid@.contains_key(k),
            forall|k: u64| k != key && self.grid@.contains_key(k) ==> pre.grid@.contains_key(k),
        ensures
            self.wf(),
    {
        assert forall|id2: u64| #[trigger] self.points@.contains_key(id2) implies {
            let q = self.points@[id2];
            &&& q.id == id2
            &&& in_lim_v(q.position@)
            &&& 0 <= q.radius <= FX_LIM
            &&& self.bucket(self.pkey(q)).contains(id2)
        } by {
            let q = self.points@[id2];
            if id2 == id {
                assert(self.grid@[key]@.last() == id);
                assert(self.bucket(key as int).contains(id));
            } else {
                assert(pre.points@.contains_key(id2));
                assert(pre.bucket(pre.pkey(q)).contains(id2));
                let pk = pre.pkey(q);
                assert(self.pkey(q) == pk);
                if pk == key {
                    let j = choose|j: int|
                        0 <= j < pre.bucket(pk).len() && pre.bucket(pk)[j] == id2;
                    assert(self.grid@[key]@[j] == id2);
                    assert(self.bucket(pk).contains(id2));
                } else {
                    lemma_pkey_range(pre, q);
                    assert(pk as u64 != key);
                    assert(pre.grid@.contains_key(pk as u64));
                    assert(self.grid@[pk as u64] == pre.grid@[pk as u64]);
                    assert(self.bucket(pk) == pre.bucket(pk));
                }
            }
        }
        assert forall|k: u64, j: int|
            self.grid@.contains_key(k) && 0 <= j < self.grid@[k]@.len() implies {
            let id2 = #[trigger] self.grid@[k]@[j];
            &&& self.points@.contains_key(id2)
            &&& self.pkey(self.points@[id2]) == k
        } by {
            let id2 = self.grid@[k]@[j];
            if k == key && j == self.grid@[k]@.len() - 1 {
                assert(id2 == id);
            } else if k == key {
                assert(pre.grid@.contains_key(k));
                assert(pre.grid@[k]@[j] == id2);
                assert(pre.points@.contains_key(id2));
                assert(id2 != id);
                assert(pre.pkey(pre.points@[id2]) == k);
            } else {
                assert(pre.grid@.contains_key(k));
                assert(pre.grid@[k]@[j] == id2);
                assert(pre.points@.contains_key(id2));
                assert(id2 != id);
                assert(pre.pkey(pre.points@[id2]) == k);
            }
        }
        assert forall|k: u64, j1: int, j2: int|
            self.grid@.contains_key(k) && 0 <= j1 < j2 < self.grid@[k]@.len() implies #[trigger] self
            .grid@[k]@[j1] != #[trigger] self.grid@[k]@[j2] by {
            if k == key {
                assert(pre.grid@.contains_key(k) || pre.bucket(k as int).len() == 0);
                if j2 == self.grid@[k]@.len() - 1 {
                    let x = self.grid@[k]@[j1];
                    assert(x == pre.bucket(k as int)[j1]);
                    assert(pre.bucket(k as int).contains(x));
                    assert(pre.points@.contains_key(x));
                    assert(x != id);
                } else {
                    assert(self.grid@[k]@[j1] == pre.bucket(k as int)[j1]);
                    assert(self.grid@[k]@[j2] == pre.bucket(k as int)[j2]);
                }
            }
        }
    }

    /// Record a new point under the next sequential id.
    pub fn insert(&mut self, position: Vec2, radius: i64) -> (id: u64)
        requires
            old(self).wf(),
            old(self).next_id_s() < 0xFFFF_FFFF_FFFF_FFFF,
            !old(self).points_s().contains_key(old(self).next_id_s() as u64),
            in_lim_v(position@),
            0 <= radius <= FX_LIM,
        ensures
            final(self).wf(),
            id == old(self).next_id_s(),
            final(self).next_id_s() == old(self).next_id_s() + 1,
            final(self).points_s() == old(self).points_s().insert(
                id,
                CellPoint { id, position, radius },
            ),
            final(self).cell_size_s() == old(self).cell_size_s(),
    {
        let id = self.next_id;
        self.next_id = self.next_id + 1;
        self.insert_with_id(id, position, radius);
        id
    }

    /// Delete a point and take it out of its bucket; unknown ids are a
    /// no-op.
    pub fn remove(&mut self, id: u64) -> (r: Option<CellPoint>)
        requires
            old(self).wf(),
        ensures
            final(self).wf(),
            final(self).cell_size_s() == old(self).cell_size_s(),
            final(self).next_id_s() == old(self).next_id_s(),
            match r {
                Some(p) => {
                    &&& old(self).points_s().contains_key(id)
                    &&& p == old(self).points_s()[id]
                    &&& final(self).points_s() == old(self).points_s().remove(id)
                },
                None => {
                    &&& !old(self).points_s().contains_key(id)
                    &&& final(self).points_s() == old(self).points_s()
                },
            },
    {
        let found = match self.points.get(&id) {
            Some(p) => Some(*p),
            None => None,
        };
        match found {
            None => None,
            Some(p) => {
                let cell = self.get_cell_coords(p.position);
                let key = Self::pack_cell(cell);
                self.bucket_remove(key, id);
                self.points.remove(&id);
                proof {
                    self.lemma_wf_after_point_remove(*old(self), id, key);
                }
                Some(p)
            },
        }
    }

    /// Re-establishing the invariant after removing `id` from bucket
    /// `key` and deleting it from the point table.
    proof fn lemma_wf_after_point_remove(self, pre: SpatialHash, id: u64, key: u64)
        requires
            pre.wf(),
            pre.points@.contains_key(id),
            pre.pkey(pre.points@[id]) == key,
            self.cell_size == pre.cell_size,
            self.points@ == pre.points@.remove(id),
            self.grid@.dom() == pre.grid@.dom(),
            pre.grid@.contains_key(key),
            forall|k: u64|
                k != key && pre.grid@.contains_key(k) ==> #[trigger] self.grid@[k] == pre.grid@[k],
            forall|x: u64|
                #[trigger] self.grid@[key]@.contains(x) <==> (pre.grid@[key]@.contains(x) && x
                    != id),
            forall|j1: int, j2: int|
                0 <= j1 < j2 < self.grid@[key]@.len() ==> #[trigger] self.grid@[key]@[j1]
                    != #[trigger] self.grid@[key]@[j2],
        ensures
            self.wf(),
    {
        assert forall|id2: u64| #[trigger] self.points@.contains_key(id2) implies {
            let q = self.points@[id2];
            &&& q.id == id2
            &&& in_lim_v(q.position@)
            &&& 0 <= q.radius <= FX_LIM
            &&& self.bucket(self.pkey(q)).contains(id2)
        } by {
            let q = self.points@[id2];
            assert(pre.points@.contains_key(id2) && id2 != id);
            let pk = pre.pkey(q);
            assert(pre.bucket(pk).contains(id2));
            if pk == key {
                assert(self.grid@[key]@.contains(id2));
            } else {
                lemma_pkey_range(pre, q);
                assert(pk as u64 != key);
                assert(pre.grid@.contains_key(pk as u64));
                assert(self.grid@[pk as u64] == pre.grid@[pk as u64]);
                assert(self.bucket(pk) == pre.bucket(pk));
            }
        }
        assert forall|k: u64, j: int|
            self.grid@.contains_key(k) && 0 <= j < self.grid@[k]@.len() implies {
            let id2 = #[trigger] self.grid@[k]@[j];
            &&& self.points@.contains_key(id2)
            &&& self.pkey(self.points@[id2]) == k
        } by {
            let id2 = self.grid@[k]@[j];
            if k == key {
                assert(self.grid@[k]@.contains(id2));
                assert(pre.grid@[k]@.contains(id2) && id2 != id);
                assert(pre.points@.contains_key(id2));
                assert(pre.pkey(pre.points@[id2]) == k);
            } else {
                assert(pre.grid@.contains_key(k));
                assert(pre.grid@[k]@[j] == id2);
                assert(pre.points@.contains_key(id2));
                if id2 == id {
                    assert(pre.pkey(pre.points@[id2]) == k);
                    assert(pre.bucket(key as int).contains(id));
                    assert(k == key);
                }
                assert(pre.pkey(pre.points@[id2]) == k);
            }
        }
    }

    /// Shift a point by an offset (saturated at the world bound), moving
    /// it between buckets when its cell changes.  Unknown ids are a no-op.
    pub fn move_point(&mut self, id: u64, offset: Vec2) -> (r: Option<()>)
        requires
            old(self).wf(),
            crate::vec2::v_bounded(offset@, 0x1_0000_0000),
        ensures
            final(self).wf(),
            final(self).cell_size_s() == old(self).cell_size_s(),
            final(self).next_id_s() == old(self).next_id_s(),
            match r {
                Some(_) => {
                    &&& old(self).points_s().contains_key(id)
                    &&& final(self).points_s() == old(self).points_s().insert(
                        id,
                        CellPoint {
                            id,
                            position: Vec2 {
                                x: crate::fx::clamp_s(
                                    old(self).points_s()[id].position@.x + offset@.x,
                                ) as i64,
                                y: crate::fx::clamp_s(
                                    old(self).points_s()[id].position@.y + offset@.y,
                                ) as i64,
                            },
                            radius: old(self).points_s()[id].radius,
                        },
                    )
                },
                None => {
                    &&& !old(self).points_s().contains_key(id)
                    &&& final(self).points_s() == old(self).points_s()
                },
            },
    {
        let found = match self.points.get(&id) {
            Some(p) => Some(*p),
            None => None,
        };
        match found {
            None => None,
            Some(p) => {
                let new_position = v2_clamp(v2_add(p.position, offset));
                let q = CellPoint { id, position: new_position, radius: p.radius };
                let old_cell = self.get_cell_coords(p.position);
                let new_cell = self.get_cell_coords(new_position);
                if old_cell.0 != new_cell.0 || old_cell.1 != new_cell.1 {
                    let old_key = Self::pack_cell(old_cell);
                    let new_key = Self::pack_cell(new_cell);
                    proof {
                        if old_key == new_key {
                            lemma_key_injective(
                                cell_of(self.cell_size as int, p.position@),
                                cell_of(self.cell_size as int, new_position@),
                            );
                        }
                    }
                    self.bucket_remove(old_key, id);
                    let ghost mid = *self;
                    proof {
                        assert(mid.bucket(new_key as int) == old(self).bucket(new_key as int));
                        if self.bucket(new_key as int).contains(id) {
                            assert(old(self).grid@.contains_key(new_key));
                            assert(old(self).grid@[new_key]@.contains(id));
                            let j = choose|j: int|
                                0 <= j < old(self).grid@[new_key]@.len() && old(self).grid@[new_key]@[j] == id;
                            assert(old(self).pkey(old(self).points@[id]) == new_key);
                        }
                    }
                    self.bucket_add(new_key, id);
                    self.points.insert(id, q);
                    proof {
                        assert(mid.grid@.contains_key(old_key));
                        assert(self.grid@[old_key] == mid.grid@[old_key]);
                        assert(self.grid@.contains_key(old_key));
                        assert(self.grid@[new_key]@ == old(self).bucket(new_key as int).push(id));
                        self.lemma_wf_after_point_move(
                            *old(self),
                            id,
                            q,
                            old_key,
                            new_key,
                        );
                    }
                } else {
                    self.points.insert(id, q);
                    proof {
                        self.lemma_wf_after_point_stay(*old(self), id, q);
                    }
                }
                Some(())
            },
        }
    }

    /// Re-establishing the invariant after a move that stays in its cell.
    proof fn lemma_wf_after_point_stay(self, pre: SpatialHash, id: u64, q: CellPoint)
        requires
            pre.wf(),
            pre.points@.contains_key(id),
            q.id == id,
            in_lim_v(q.position@),
            0 <= q.radius <= FX_LIM,
            self.cell_size == pre.cell_size,
            self.pkey(q) == pre.pkey(pre.points@[id]),
            self.points@ == pre.points@.insert(id, q),
            self.grid@ == pre.grid@,
        ensures
            self.wf(),
    {
        assert forall|id2: u64| #[trigger] self.points@.contains_key(id2) implies {
            let p = self.points@[id2];
            &&& p.id == id2
            &&& in_lim_v(p.position@)
            &&& 0 <= p.radius <= FX_LIM
            &&& self.bucket(self.pkey(p)).contains(id2)
        } by {
            let p = self.points@[id2];
            if id2 == id {
                assert(pre.bucket(pre.pkey(pre.points@[id])).contains(id));
            } else {
                assert(pre.points@.contains_key(id2));
                assert(pre.bucket(pre.pkey(p)).contains(id2));
            }
        }
        assert forall|k: u64, j: int|
            self.grid@.contains_key(k) && 0 <= j < self.grid@[k]@.len() implies {
            let id2 = #[trigger] self.grid@[k]@[j];
            &&& self.points@.contains_key(id2)
            &&& self.pkey(self.points@[id2]) == k
        } by {
            let id2 = self.grid@[k]@[j];
            assert(pre.points@.contains_key(id2));
            assert(pre.pkey(pre.points@[id2]) == k);
        }
    }

    /// Re-establishing the invariant after a move between two buckets.
    proof fn lemma_wf_after_point_move(
        self,
        pre: SpatialHash,
        id: u64,
        q: CellPoint,
        old_key: u64,
        new_key: u64,
    )
        requires
            pre.wf(),
            pre.points@.contains_key(id),
            q.id == id,
            in_lim_v(q.position@),
            0 <= q.radius <= FX_LIM,
            old_key != new_key,
            self.cell_size == pre.cell_size,
            pre.pkey(pre.points@[id]) == old_key,
            self.pkey(q) == new_key,
            self.points@ == pre.points@.insert(id, q),
            pre.grid@.contains_key(old_key),
            self.grid@.contains_key(new_key),
            // after bucket_remove on old_key then bucket_add on new_key:
            forall|k: u64|
                k != old_key && k != new_key && pre.grid@.contains_key(k)
                    ==> #[trigger] self.grid@[k] == pre.grid@[k] && self.grid@.contains_key(k),
            forall|k: u64|
                k != old_key && k != new_key && self.grid@.contains_key(k)
                    ==> pre.grid@.contains_key(k),
            forall|x: u64|
                #[trigger] self.grid@[old_key]@.contains(x) <==> (pre.grid@[old_key]@.contains(x)
                    && x != id),
            forall|j1: int, j2: int|
                0 <= j1 < j2 < self.grid@[old_key]@.len() ==> #[trigger] self.grid@[old_key]@[j1]
                    != #[trigger] self.grid@[old_key]@[j2],
            self.grid@.contains_key(old_key),
            self.grid@[new_key]@ == pre.bucket(new_key as int).push(id),
            !pre.bucket(new_key as int).contains(id),
        ensures
            self.wf(),
    {
        assert forall|id2: u64| #[trigger] self.points@.contains_key(id2) implies {
            let p = self.points@[id2];
            &&& p.id == id2
            &&& in_lim_v(p.position@)
            &&& 0 <= p.radius <= FX_LIM
            &&& self.bucket(self.pkey(p)).contains(id2)
        } by {
            let p = self.points@[id2];
            if id2 == id {
                assert(self.grid@[new_key]@.last() == id);
                assert(self.bucket(new_key as int).contains(id));
            } else {
                assert(pre.points@.contains_key(id2));
                let pk = pre.pkey(p);
                assert(pre.bucket(pk).contains(id2));
                if pk == old_key {
                    assert(self.grid@[old_key]@.contains(id2));
                    assert(self.bucket(pk).contains(id2));
                } else if pk == new_key {
                    let j = choose|j: int|
                        0 <= j < pre.bucket(pk).len() && pre.bucket(pk)[j] == id2;
                    assert(pre.bucket(new_key as int)[j] == id2);
                    assert(self.grid@[new_key]@[j] == id2);
                    assert(self.bucket(pk).contains(id2));
                } else {
                    lemma_pkey_range(pre, p);
                    assert(pk as u64 != old_key && pk as u64 != new_key);
                    assert(pre.grid@.contains_key(pk as u64));
                    assert(self.grid@[pk as u64] == pre.grid@[pk as u64]);
                    assert(self.bucket(pk) == pre.bucket(pk));
                }
            }
        }
        assert forall|k: u64, j: int|
            self.grid@.contains_key(k) && 0 <= j < self.grid@[k]@.len() implies {
            let id2 = #[trigger] self.grid@[k]@[j];
            &&& self.points@.contains_key(id2)
            &&& self.pkey(self.points@[id2]) == k
        } by {
            let id2 = self.grid@[k]@[j];
            if k == new_key {
                if j == self.grid@[k]@.len() - 1 {
                    assert(id2 == id);
                } else {
                    assert(id2 == pre.bucket(new_key as int)[j]);
                    assert(pre.bucket(new_key as int)[j] == id2);
                    assert(pre.bucket(new_key as int).contains(id2));
                    assert(pre.grid@.contains_key(new_key));
                    assert(pre.points@.contains_key(id2));
                    assert(id2 != id);
                    assert(pre.pkey(pre.points@[id2]) == k);
                }
            } else if k == old_key {
                assert(self.grid@[k]@.contains(id2));
                assert(pre.grid@[k]@.contains(id2) && id2 != id);
                assert(pre.points@.contains_key(id2));
                assert(pre.pkey(pre.points@[id2]) == k);
            } else {
                assert(pre.grid@.contains_key(k));
                assert(pre.grid@[k]@[j] == id2);
                assert(pre.points@.contains_key(id2));
                if id2 == id {
                    assert(pre.pkey(pre.points@[id2]) == old_key);
                    assert(k == old_key);
                }
                assert(pre.pkey(pre.points@[id2]) == k);
            }
        }
        assert forall|k: u64, j1: int, j2: int|
            self.grid@.contains_key(k) && 0 <= j1 < j2 < self.grid@[k]@.len() implies #[trigger] self
            .grid@[k]@[j1] != #[trigger] self.grid@[k]@[j2] by {
            if k == new_key {
                let base = pre.bucket(new_key as int);
                if j2 == self.grid@[k]@.len() - 1 {
                    let x = self.grid@[k]@[j1];
                    assert(x == base[j1]);
                    assert(base.contains(x));
                } else {
                    assert(self.grid@[k]@[j1] == base[j1]);
                    assert(self.grid@[k]@[j2] == base[j2]);
                    assert(pre.bucket(new_key as int)[j1] == base[j1]);
                    assert(pre.bucket(new_key as int)[j2] == base[j2]);
                }
            } else if k == old_key {
            } else {
                assert(self.grid@[k]@ == pre.grid@[k]@);
            }
        }
    }

    /// The indexed points of one cell within reach of the query, as a
    /// fresh list.
    #[verifier::rlimit(50)]
    fn cell_hits(&self, cell: (i32, i32), position: Vec2, query_radius: i64) -> (r: Vec<
        CellPoint,
    >)
        requires
            self.wf(),
            in_lim_v(position@),
            0 <= query_radius <= FX_LIM,
            cell_in_range((cell.0 as int, cell.1 as int)),
        ensures
            forall|j: int|
                0 <= j < r@.len() ==> {
                    let p = #[trigger] r@[j];
                    &&& self.points_s().contains_key(p.id)
                    &&& p == self.points_s()[p.id]
                    &&& cell_of(self.cell_size_s(), p.position@) == (cell.0 as int, cell.1 as int)
                    &&& dist_sq(p.position@, position@) <= (query_radius + p.radius) * (
                    query_radius + p.radius)
                },
            forall|id: u64|
                {
                    let p = self.points_s()[id];
                    (#[trigger] self.points_s().contains_key(id) && cell_of(
                        self.cell_size_s(),
                        p.position@,
                    ) == (cell.0 as int, cell.1 as int) && dist_sq(p.position@, position@) <= (
                    query_radius + p.radius) * (query_radius + p.radius)) ==> r@.contains(p)
                },
            forall|j1: int, j2: int|
                0 <= j1 < j2 < r@.len() ==> #[trigger] r@[j1].id != #[trigger] r@[j2].id,
    {
        let key = Self::pack_cell(cell);
        let mut out: Vec<CellPoint> = Vec::new();
        let bucket_opt = self.grid.get(&key);
        match bucket_opt {
            None => {
                proof {
                    assert forall|id: u64|
                        {
                            let p = self.points_s()[id];
                            #[trigger] self.points_s().contains_key(id) && cell_of(
                                self.cell_size_s(),
                                p.position@,
                            ) == (cell.0 as int, cell.1 as int)
                        } implies false by {
                        let p = self.points@[id];
                        lemma_pkey_range(*self, p);
                        assert(self.pkey(p) == key);
                        assert(self.bucket(key as int).contains(id));
                    }
                }
            },
            Some(bucket) => {
                let n = bucket.len();
                let mut j: usize = 0;
                while j < n
                    invariant
                        self.wf(),
                        in_lim_v(position@),
                        0 <= query_radius <= FX_LIM,
                        cell_in_range((cell.0 as int, cell.1 as int)),
                        key == key_of((cell.0 as int, cell.1 as int)),
                        self.grid@.contains_key(key),
                        bucket@ == self.grid@[key]@,
                        n == bucket@.len(),
                        0 <= j <= n,
                        forall|m: int|
                            0 <= m < out@.len() ==> {
                                let p = #[trigger] out@[m];
                                &&& self.points_s().contains_key(p.id)
                                &&& p == self.points_s()[p.id]
                                &&& cell_of(self.cell_size_s(), p.position@) == (
                                cell.0 as int,
                                cell.1 as int,
                                )
                                &&& dist_sq(p.position@, position@) <= (query_radius + p.radius)
                                    * (query_radius + p.radius)
                                &&& exists|w: int| 0 <= w < j && bucket@[w] == p.id
                            },
                        forall|w: int|
                            0 <= w < j ==> {
                                let id = #[trigger] bucket@[w];
                                let p = self.points_s()[id];
                                dist_sq(p.position@, position@) <= (query_radius + p.radius) * (
                                query_radius + p.radius) ==> out@.contains(p)
                            },
                        forall|m1: int, m2: int|
                            0 <= m1 < m2 < out@.len() ==> #[trigger] out@[m1].id
                                != #[trigger] out@[m2].id,
                    decreases n - j,
                {
                    let id = bucket[j];
                    proof {
                        assert(self.grid@[key]@[j as int] == id);
                        assert(self.points@.contains_key(id));
                    }
                    let p = match self.points.get(&id) {
                        Some(p) => *p,
                        None => {
                            proof {
                                assert(false);
                            }
                            unreached()
                        },
                    };
                    proof {
                        assert(p == self.points@[id]);
                        assert(in_lim_v(p.position@) && 0 <= p.radius <= FX_LIM && p.id == id);
                    }
                    let dx = p.position.x - position.x;
                    let dy = p.position.y - position.y;
                    proof {
                        crate::vec2::lemma_mul_mag(dx as int, dx as int, 0x1_0000_0000);
                        crate::vec2::lemma_mul_mag(dy as int, dy as int, 0x1_0000_0000);
                    }
                    let d2 = (dx as i128) * (dx as i128) + (dy as i128) * (dy as i128);
                    let rr = query_radius + p.radius;
                    proof {
                        crate::vec2::lemma_mul_mag(rr as int, rr as int, 0x1_0000_0000);
                    }
                    let rr2 = (rr as i128) * (rr as i128);
                    proof {
                        assert(d2 == dist_sq(p.position@, position@));
                        assert(rr2 == (query_radius + p.radius) * (query_radius + p.radius));
                    }
                    let ghost before = out@;
                    if d2 <= rr2 {
                        out.push(p);
                        proof {
                            assert(out@.last() == p);
                            assert(bucket@[j as int] == p.id);
                            lemma_pkey_range(*self, p);
                            assert(self.pkey(p) == key as int);
                            lemma_cell_bound(p.position@.x, self.cell_size_s());
                            lemma_cell_bound(p.position@.y, self.cell_size_s());
                            lemma_key_injective(
                                cell_of(self.cell_size_s(), p.position@),
                                (cell.0 as int, cell.1 as int),
                            );
                            assert forall|m1: int, m2: int|
                                0 <= m1 < m2 < out@.len() implies #[trigger] out@[m1].id
                                != #[trigger] out@[m2].id by {
                                if m2 == out@.len() - 1 && out@[m1].id == id {
                                    let w = choose|w: int|
                                        0 <= w < j && bucket@[w] == out@[m1].id;
                                    assert(self.grid@[key]@[w] == id);
                                    assert(self.grid@[key]@[j as int] == id);
                                    assert(false);
                                }
                            }
                            assert forall|w: int|
                                0 <= w < j + 1 && dist_sq(
                                    self.points_s()[#[trigger] bucket@[w]].position@,
                                    position@,
                                ) <= (query_radius + self.points_s()[bucket@[w]].radius) * (
                                query_radius + self.points_s()[bucket@[w]].radius) implies out@
                                .contains(self.points_s()[bucket@[w]]) by {
                                let q = self.points_s()[bucket@[w]];
                                if w < j {
                                    assert(before.contains(q));
                                    let m = choose|m: int|
                                        0 <= m < before.len() && before[m] == q;
                                    assert(out@[m] == q);
                                } else {
                                    assert(out@.last() == q);
                                }
                            }
                        }
                    }
                    j = j + 1;
                }
            },
        }
        out
    }

    /// All indexed points within `query_radius` of `position`, each
    /// point's own radius included: exactly those in the 3-by-3 cell
    /// neighbourhood whose distance passes the radius-aware test, each
    /// listed once.
    #[verifier::rlimit(50)]
    pub fn query(&self, position: Vec2, query_radius: i64) -> (r: Vec<CellPoint>)
        requires
            self.wf(),
            in_lim_v(position@),
            0 <= query_radius <= FX_LIM,
        ensures
            forall|j: int|
                0 <= j < r@.len() ==> {
                    let p = #[trigger] r@[j];
                    &&& self.points_s().contains_key(p.id)
                    &&& p == self.points_s()[p.id]
                    &&& query_hit(self.cell_size_s(), p, position@, query_radius as int)
                },
            forall|id: u64|
                #[trigger] self.points_s().contains_key(id) && query_hit(
                    self.cell_size_s(),
                    self.points_s()[id],
                    position@,
                    query_radius as int,
                ) ==> r@.contains(self.points_s()[id]),
            forall|j1: int, j2: int|
                0 <= j1 < j2 < r@.len() ==> #[trigger] r@[j1].id != #[trigger] r@[j2].id,
    {
        let center = self.get_cell_coords(position);
        let bx = center.0 - 1;
        let by = center.1 - 1;
        let mut out: Vec<CellPoint> = Vec::new();
        let mut n: usize = 0;
        let ghost cs = self.cell_size_s();
        let ghost ctr = cell_of(cs, position@);
        while n < 9
            invariant
                self.wf(),
                in_lim_v(position@),
                0 <= query_radius <= FX_LIM,
                ctr == cell_of(cs, position@),
                cs == self.cell_size_s(),
                bx as int == ctr.0 - 1,
                by as int == ctr.1 - 1,
                -0x4000_0001 <= bx as int <= 0x3FFF_FFFF,
                -0x4000_0001 <= by as int <= 0x3FFF_FFFF,
                0 <= n <= 9,
                forall|j: int|
                    0 <= j < out@.len() ==> {
                        let p = #[trigger] out@[j];
                        &&& self.points_s().contains_key(p.id)
                        &&& p == self.points_s()[p.id]
                        &&& query_hit(cs, p, position@, query_radius as int)
                        &&& cell_lin(ctr, cell_of(cs, p.position@)) < n
                    },
                forall|id: u64|
                    #[trigger] self.points_s().contains_key(id) && query_hit(
                        cs,
                        self.points_s()[id],
                        position@,
                        query_radius as int,
                    ) && cell_lin(ctr, cell_of(cs, self.points_s()[id].position@)) < n
                        ==> out@.contains(self.points_s()[id]),
                forall|j1: int, j2: int|
                    0 <= j1 < j2 < out@.len() ==> #[trigger] out@[j1].id != #[trigger] out@[j2].id,
            decreases 9 - n,
        {
            let du = n / 3;
            let dv = n % 3;
            proof {
                assert(0 <= n as int / 3 < 3 && 0 <= n as int % 3 < 3) by (nonlinear_arith)
                    requires 0 <= n < 9;
            }
            let cell = (bx + du as i32, by + dv as i32);
            let ghost pre = out@;
            let mut hits = self.cell_hits(cell, position, query_radius);
            let ghost found = hits@;
            out.append(&mut hits);
            proof {
                vstd::arithmetic::div_mod::lemma_fundamental_div_mod(n as int, 3);
                assert(cell_lin(ctr, (cell.0 as int, cell.1 as int)) == n);
                assert(out@ == pre + found);
                assert forall|j: int| 0 <= j < out@.len() implies {
                    let p = #[trigger] out@[j];
                    &&& self.points_s().contains_key(p.id)
                    &&& p == self.points_s()[p.id]
                    &&& query_hit(cs, p, position@, query_radius as int)
                    &&& cell_lin(ctr, cell_of(cs, p.position@)) < n + 1
                } by {
                    let p = out@[j];
                    if j < pre.len() {
                        assert(p == pre[j]);
                    } else {
                        assert(p == found[j - pre.len()]);
                        assert(cell_of(cs, p.position@) == (cell.0 as int, cell.1 as int));
                    }
                }
                assert forall|id: u64|
                    #[trigger] self.points_s().contains_key(id) && query_hit(
                        cs,
                        self.points_s()[id],
                        position@,
                        query_radius as int,
                    ) && cell_lin(ctr, cell_of(cs, self.points_s()[id].position@)) < n + 1 implies out@
                    .contains(self.points_s()[id]) by {
                    let p = self.points_s()[id];
                    let c = cell_of(cs, p.position@);
                    if cell_lin(ctr, c) < n {
                        let w = choose|w: int| 0 <= w < pre.len() && pre[w] == p;
                        assert(out@[w] == p);
                    } else {
                        vstd::arithmetic::div_mod::lemma_fundamental_div_mod_converse(
                            n as int,
                            3,
                            c.0 - ctr.0 + 1,
                            c.1 - ctr.1 + 1,
                        );
                        assert(c == (cell.0 as int, cell.1 as int));
                        assert(found.contains(p));
                        let w = choose|w: int| 0 <= w < found.len() && found[w] == p;
                        assert(out@[pre.len() + w] == p);
                    }
                }
                assert forall|j1: int, j2: int|
                    0 <= j1 < j2 < out@.len() implies #[trigger] out@[j1].id
                    != #[trigger] out@[j2].id by {
                    let p1 = out@[j1];
                    let p2 = out@[j2];
                    if j1 < pre.len() && j2 >= pre.len() {
                        assert(p1 == pre[j1]);
                        assert(p2 == found[j2 - pre.len()]);
                        if p1.id == p2.id {
                            assert(p1 == self.points_s()[p1.id]);
                            assert(p2 == self.points_s()[p1.id]);
                            assert(cell_lin(ctr, cell_of(cs, p1.position@)) < n);
                            assert(cell_of(cs, p2.position@) == (cell.0 as int, cell.1 as int));
                        }
                    } else if j2 < pre.len() {
                        assert(p1 == pre[j1] && p2 == pre[j2]);
                    } else {
                        assert(p1 == found[j1 - pre.len()] && p2 == found[j2 - pre.len()]);
                    }
                }
            }
            n = n + 1;
        }
        proof {
            assert forall|id: u64|
                #[trigger] self.points_s().contains_key(id) && query_hit(
                    cs,
                    self.points_s()[id],
                    position@,
                    query_radius as int,
                ) implies out@.contains(self.points_s()[id]) by {
                let c = cell_of(cs, self.points_s()[id].position@);
                assert(0 <= cell_lin(ctr, c) < 9);
            }
        }
        out
    }
}
/// Every indexed point's fields are within the world bounds.
pub proof fn lemma_point_bounds(h: SpatialHash, id: u64)
    requires
        h.wf(),
        h.points_s().contains_key(id),
    ensures
        in_lim_v(h.points_s()[id].position@),
        0 <= h.points_s()[id].radius <= FX_LIM,
        h.points_s()[id].id == id,
{
}

/// An id that is not indexed sits in no grid bucket: removal leaves no
/// stale bucket entry behind.
pub proof fn lemma_absent_id_in_no_bucket(h: SpatialHash, id: u64)
    requires
        h.wf(),
        !h.points_s().contains_key(id),
    ensures
        forall|k: u64| !#[trigger] h.bucket(k as int).contains(id),
{
    assert forall|k: u64| !#[trigger] h.bucket(k as int).contains(id) by {
        if h.bucket(k as int).contains(id) {
            let j = choose|j: int|
                0 <= j < h.bucket(k as int).len() && h.bucket(k as int)[j] == id;
            assert(h.points_s().contains_key(id));
        }
    }
}

/// Law (round trip): a query at an indexed point's own position, with
/// query radius zero, always counts that point as a hit, so `query` at
/// that position returns it.
pub proof fn lemma_query_roundtrip(h: SpatialHash, id: u64)
    requires
        h.wf(),
        h.points_s().contains_key(id),
    ensures
        query_hit(h.cell_size_s(), h.points_s()[id], h.points_s()[id].position@, 0),
{
    let p = h.points_s()[id];
    assert(dist_sq(p.position@, p.position@) == 0);
    assert(0 <= (0 + p.radius) * (0 + p.radius)) by (nonlinear_arith);
}

/// Law (miss): a point strictly farther from the query position than the
/// query radius plus its own radius is never a hit, so `query` never
/// returns it.
pub proof fn lemma_query_miss(h: SpatialHash, id: u64, pos: V2i, qr: int)
    requires
        h.wf(),
        h.points_s().contains_key(id),
        dist_sq(h.points_s()[id].position@, pos) > (qr + h.points_s()[id].radius) * (qr + h
            .points_s()[id].radius),
    ensures
        !query_hit(h.cell_size_s(), h.points_s()[id], pos, qr),
{
}

/// Law (grid cell consistency): at every moment, each indexed point's id
/// is filed under the bucket of the cell of its recorded position, and
/// under no other bucket.
pub proof fn lemma_cell_consistency(h: SpatialHash, id: u64)
    requires
        h.wf(),
        h.points_s().contains_key(id),
    ensures
        h.bucket(h.pkey(h.points_s()[id])).contains(id),
        forall|k: u64|
            #[trigger] h.bucket(k as int).contains(id) ==> k as int == h.pkey(h.points_s()[id]),
{
    assert forall|k: u64| #[trigger] h.bucket(k as int).contains(id) implies k as int == h.pkey(
        h.points_s()[id],
    ) by {
        let b = h.bucket(k as int);
        let j = choose|j: int| 0 <= j < b.len() && b[j] == id;
        assert(h.points_s().contains_key(id) && h.pkey(h.points_s()[id]) == k);
    }
}

} // verus!

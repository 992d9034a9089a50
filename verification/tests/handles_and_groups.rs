//! The generational handle table and the collision-group filters.

use blobs::arena::{Arena, Index};
use blobs::groups::{Group, InteractionGroups};

#[test]
fn arena_insert_get_remove() {
    let mut arena: Arena<i64> = Arena::new();
    assert_eq!(arena.len(), 0);
    let a = arena.insert(10);
    let b = arena.insert(20);
    assert_eq!(arena.len(), 2);
    assert_eq!(arena.get(a), Some(&10));
    assert_eq!(arena.get(b), Some(&20));
    assert_eq!(arena.remove(a), Some(10));
    assert_eq!(arena.len(), 1);
    assert_eq!(arena.get(a), None);
    assert_eq!(arena.remove(a), None);
}

#[test]
fn stale_handles_stay_dead_after_reuse() {
    let mut arena: Arena<i64> = Arena::new();
    let a = arena.insert(1);
    arena.remove(a);
    let b = arena.insert(2);
    // the slot is reused under a new generation: the old handle stays
    // dead and the new one is unaffected by it
    assert_eq!(b.slot, a.slot);
    assert_ne!(b.generation, a.generation);
    assert_eq!(arena.get(a), None);
    assert_eq!(arena.get(b), Some(&2));
    assert_eq!(arena.remove(a), None);
    assert_eq!(arena.get(b), Some(&2));
}

#[test]
fn handle_bits_round_trip() {
    let h = Index { slot: 7, generation: 3 };
    let bits = h.to_bits();
    assert_eq!(bits, 3 * 0x1_0000_0000 + 7);
    let back = Index::from_bits(bits);
    assert_eq!(back, h);
}

#[test]
fn interaction_groups_filter_both_ways() {
    let all = InteractionGroups::all();
    assert!(all.test(all));
    let none = InteractionGroups::none();
    assert!(!none.test(all));
    assert!(!all.test(none));

    // membership on one side must intersect the filter on the other,
    // and vice versa
    let a = InteractionGroups::new(Group::nth(0), Group::nth(1));
    let b = InteractionGroups::new(Group::nth(1), Group::nth(0));
    assert!(a.test(b));
    assert!(b.test(a));
    let c = InteractionGroups::new(Group::nth(2), Group::nth(0));
    assert!(!a.test(c));

    let d = InteractionGroups::all().with_memberships(Group::none());
    assert!(!d.test(all));
    let e = InteractionGroups::all().with_filter(Group::none());
    assert!(!e.test(all));

    assert_eq!(Group::from_bits(5).bits(), 5);
    assert_eq!(InteractionGroups::default().memberships.bits(), u32::MAX);
}

#[test]
fn two_handle_access_never_aliases() {
    let mut arena: Arena<i64> = Arena::new();
    let a = arena.insert(1);
    let b = arena.insert(2);
    let (ra, rb) = arena.get2_mut(a, b);
    *ra = 10;
    *rb = 20;
    assert_eq!(arena.get(a), Some(&10));
    assert_eq!(arena.get(b), Some(&20));
}

use arena::collection::Arena;
use arena::key::{Id, Key};
use arena::version::{Checked32, Checked8, Nil, Version, Wrapping};

#[test]
fn insert_then_get_returns_value() {
    let mut arena: Arena<Id, u64> = Arena::new();
    let k = arena.insert(42).unwrap();
    assert_eq!(arena.get(k), Some(&42));
    assert!(arena.contains(k));
}

#[test]
fn remove_then_get_is_none() {
    let mut arena: Arena<Id, u64> = Arena::new();
    let k = arena.insert(5).unwrap();
    assert_eq!(arena.remove(k), Some(5));
    assert_eq!(arena.get(k), None);
    assert!(!arena.contains(k));
    assert_eq!(arena.remove(k), None);
}

#[test]
fn scenario_checked_reuse() {
    let mut arena: Arena<Id, i32> = Arena::new();
    let k1 = arena.insert(10).unwrap();
    assert_eq!(arena.get(k1), Some(&10));
    assert_eq!(arena.remove(k1), Some(10));
    assert_eq!(arena.get(k1), None);
    let k2 = arena.insert(20).unwrap();
    assert_eq!(k2.index(), k1.index());
    assert_ne!(k2, k1);
    assert_eq!(arena.get(k1), None);
    assert_eq!(arena.get(k2), Some(&20));
}

#[test]
fn scenario_wrapping_reuse() {
    let mut arena: Arena<Id<Wrapping<Checked32>>, i32> = Arena::new();
    let k1 = arena.insert(10).unwrap();
    assert_eq!(arena.get(k1), Some(&10));
    assert_eq!(arena.remove(k1), Some(10));
    assert_eq!(arena.get(k1), None);
    let k2 = arena.insert(20).unwrap();
    assert_eq!(k2.index(), k1.index());
    assert_ne!(k2, k1);
    assert_eq!(arena.get(k1), None);
    assert_eq!(arena.get(k2), Some(&20));
}

#[test]
fn nil_versions_alias_stale_keys() {
    let mut arena: Arena<Id<Nil>, i32> = Arena::new();
    let k1 = arena.insert(10).unwrap();
    assert_eq!(arena.remove(k1), Some(10));
    let k2 = arena.insert(20).unwrap();
    assert_eq!(k2, k1);
    assert_eq!(arena.get(k1), Some(&20));
}

#[test]
fn len_counts_inserts_minus_removes() {
    let mut arena: Arena<Id, u32> = Arena::new();
    assert_eq!(arena.len(), 0);
    assert!(arena.is_empty());
    let a = arena.insert(1).unwrap();
    let b = arena.insert(2).unwrap();
    let c = arena.insert(3).unwrap();
    assert_eq!(arena.len(), 3);
    assert_eq!(arena.remove(b), Some(2));
    assert_eq!(arena.remove(b), None);
    assert_eq!(arena.len(), 2);
    let d = arena.insert(4).unwrap();
    assert_eq!(d.index(), b.index());
    assert_eq!(arena.remove(a), Some(1));
    assert_eq!(arena.remove(c), Some(3));
    assert_eq!(arena.len(), 1);
    assert!(!arena.is_empty());
}

#[test]
fn insert_with_sees_own_key() {
    let mut arena: Arena<Id, (Id, u32)> = Arena::new();
    let k = arena.insert_with(|key| (key, 9)).unwrap();
    assert_eq!(arena.get(k), Some(&(k, 9)));
    assert_eq!(arena.remove(k), Some((k, 9)));
    let second = arena.insert_with(|key| (key, 1)).unwrap();
    assert_eq!(second.index(), k.index());
    assert_eq!(arena.get(second), Some(&(second, 1)));
    assert_ne!(k, second);
}

#[test]
fn exhausted_slot_is_retired() {
    let mut arena: Arena<Id<Checked8>, u32> = Arena::new();
    let mut k = arena.insert(0).unwrap();
    let mut rounds: u32 = 0;
    while k.version().get() < u8::MAX {
        assert_eq!(arena.remove(k), Some(rounds));
        rounds += 1;
        k = arena.insert(rounds).unwrap();
        assert_eq!(k.index(), 0);
    }
    assert_eq!(rounds, 254);
    assert_eq!(arena.remove(k), Some(rounds));
    for n in 0..10u32 {
        let fresh = arena.insert(n).unwrap();
        assert_ne!(fresh.index(), 0);
    }
    assert_eq!(arena.get(k), None);
    assert_eq!(arena.len(), 10);
}

#[test]
fn with_capacity_keeps_capacity() {
    let mut arena: Arena<Id, usize> = Arena::with_capacity(100);
    let capacity = arena.capacity();
    assert!(capacity >= 100);
    let mut keys = Vec::new();
    for n in 0..100usize {
        keys.push(arena.insert(n).unwrap());
    }
    assert_eq!(arena.capacity(), capacity);
    for (n, k) in keys.iter().enumerate() {
        assert_eq!(arena.get(*k), Some(&n));
        for other in &keys[..n] {
            assert_ne!(other, k);
        }
    }
    assert_eq!(arena.len(), 100);
}

#[test]
fn capacity_covers_slots() {
    let mut arena: Arena<Id, u8> = Arena::new();
    assert_eq!(arena.len(), 0);
    for n in 0..20u8 {
        arena.insert(n).unwrap();
    }
    assert!(arena.capacity() >= 20);
}

#[test]
fn get_mut_changes_value_in_place() {
    let mut arena: Arena<Id, String> = Arena::new();
    let k = arena.insert(String::from("a")).unwrap();
    arena.get_mut(k).unwrap().push('b');
    assert_eq!(arena.get(k).map(|s| s.as_str()), Some("ab"));
    arena.remove(k);
    assert!(arena.get_mut(k).is_none());
}

#[test]
fn iter_lists_occupied_in_slot_order() {
    let mut arena: Arena<Id, char> = Arena::new();
    let a = arena.insert('a').unwrap();
    let b = arena.insert('b').unwrap();
    let c = arena.insert('c').unwrap();
    arena.remove(b);
    let items = arena.iter();
    assert_eq!(items, vec![(a, &'a'), (c, &'c')]);
    let d = arena.insert('d').unwrap();
    let items = arena.iter();
    assert_eq!(items, vec![(a, &'a'), (d, &'d'), (c, &'c')]);
}

#[test]
fn clear_forgets_everything() {
    let mut arena: Arena<Id, u16> = Arena::with_capacity(4);
    let a = arena.insert(1).unwrap();
    let b = arena.insert(2).unwrap();
    arena.clear();
    assert_eq!(arena.len(), 0);
    assert_eq!(arena.get(a), None);
    assert!(!arena.contains(b));
    assert!(arena.iter().is_empty());
    let c = arena.insert(3).unwrap();
    assert_eq!(c.index(), 0);
    assert_eq!(arena.get(c), Some(&3));
}

#[test]
fn stale_key_out_of_range() {
    let arena: Arena<Id, u16> = Arena::new();
    let k = Id::new(7, Checked32::new()).unwrap();
    assert_eq!(arena.get(k), None);
    assert!(!arena.contains(k));
}

use arena::key::{index, index_mut, vec_index, vec_index_mut, Id, Key};
use arena::version::{Checked32, Nil, Version};

#[test]
fn key_new_keeps_fields() {
    let v = Checked32::new().increment().unwrap();
    let k: Id = Id::new(12, v).unwrap();
    assert_eq!(k.index(), 12);
    assert_eq!(k.version(), v);
    assert_eq!(k.version().get(), 2);
}

#[test]
fn key_new_rejects_large_index() {
    let top = u32::MAX as usize;
    assert!(<Id<Nil> as Key>::new(top, Nil).is_some());
    assert!(<Id<Nil> as Key>::new(top + 1, Nil).is_none());
}

#[test]
fn keys_compare_by_index_and_version() {
    let v1 = Checked32::new();
    let v2 = v1.increment().unwrap();
    let a: Id = Id::new(3, v1).unwrap();
    let b: Id = Id::new(3, v2).unwrap();
    let c: Id = Id::new(3, v1).unwrap();
    assert_ne!(a, b);
    assert_eq!(a, c);
    assert!(a < b);
}

#[test]
fn default_key_has_largest_index() {
    let k: Id = Id::default();
    assert_eq!(k.index(), u32::MAX as usize);
    assert_eq!(k.version(), Checked32::new());
}

#[test]
fn key_indexes_slices_and_vectors() {
    let mut items = vec![10, 20, 30];
    let k: Id = Id::new(1, Checked32::new()).unwrap();
    assert_eq!(*index(&items[..], k), 20);
    assert_eq!(*vec_index(&items, k), 20);
    *vec_index_mut(&mut items, k) = 21;
    assert_eq!(items[1], 21);
    *index_mut(&mut items[..], k) = 22;
    assert_eq!(items, vec![10, 22, 30]);
}

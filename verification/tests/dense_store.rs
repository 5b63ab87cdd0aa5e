//! Behavioral checks of the stable-handle container.

use homotopy_store::dense::DenseVec;

#[test]
fn push_then_get() {
    let mut v: DenseVec<u32> = DenseVec::new();
    let a = v.push(10);
    let b = v.push(20);
    assert_eq!(v.len(), 2);
    assert_eq!(v.get(a), Some(&10));
    assert_eq!(v.get(b), Some(&20));
    assert!(v.contains_key(a));
    assert!(!v.is_empty());
}

#[test]
fn remove_returns_element_and_invalidates_id() {
    let mut v: DenseVec<u32> = DenseVec::new();
    let a = v.push(1);
    let b = v.push(2);
    assert_eq!(v.remove(a), Some(1));
    assert_eq!(v.get(a), None);
    assert!(!v.contains_key(a));
    assert_eq!(v.get(b), Some(&2));
    assert_eq!(v.remove(a), None);
}

#[test]
fn fresh_id_never_equals_live_id() {
    // push, remove, push again: the new id differs from every live id
    let mut v: DenseVec<u32> = DenseVec::new();
    let a = v.push(1);
    let b = v.push(2);
    let c = v.push(3);
    assert_eq!(v.remove(b), Some(2));
    let d = v.push(4);
    assert_ne!(d, a);
    assert_ne!(d, c);
    assert_eq!(v.get(a), Some(&1));
    assert_eq!(v.get(c), Some(&3));
    assert_eq!(v.get(d), Some(&4));
}

#[test]
fn len_tracks_pushes_minus_removals() {
    let mut v: DenseVec<u32> = DenseVec::new();
    let mut ids = Vec::new();
    for i in 0..8u32 {
        ids.push(v.push(i));
    }
    assert_eq!(v.len(), 8);
    assert_eq!(v.remove(ids[1]), Some(1));
    assert_eq!(v.remove(ids[4]), Some(4));
    assert_eq!(v.remove(ids[7]), Some(7));
    assert_eq!(v.len(), 5);
}

#[test]
fn iteration_yields_exactly_live_elements() {
    let mut v: DenseVec<u32> = DenseVec::new();
    let a = v.push(1);
    let b = v.push(2);
    let c = v.push(3);
    v.remove(b).unwrap();
    let mut keys = v.keys().clone();
    keys.sort();
    let mut expected = vec![a, c];
    expected.sort();
    assert_eq!(keys, expected);
    let mut values = v.values().clone();
    values.sort();
    assert_eq!(values, vec![1, 3]);
    let pairs = v.iter();
    assert_eq!(pairs.len(), 2);
    for (id, val) in pairs {
        assert_eq!(v.get(id), Some(val));
    }
}

#[test]
fn freed_ids_are_reused_oldest_first() {
    let mut v: DenseVec<u32> = DenseVec::new();
    let a = v.push(1);
    let b = v.push(2);
    let _c = v.push(3);
    v.remove(a).unwrap();
    v.remove(b).unwrap();
    let d = v.push(4);
    let e = v.push(5);
    assert_eq!(d, a);
    assert_eq!(e, b);
    assert_eq!(v.len(), 3);
}

#[test]
fn get_on_never_issued_id_is_none() {
    let v: DenseVec<u32> = DenseVec::new();
    assert_eq!(v.get(17), None);
    assert!(!v.contains_key(17));
}

#[test]
fn clear_resets_ids() {
    let mut v: DenseVec<u32> = DenseVec::with_capacity(4);
    v.push(1);
    v.push(2);
    v.clear();
    assert!(v.is_empty());
    let a = v.push(9);
    assert_eq!(a, 0);
}

#[test]
fn get_mut_updates_in_place() {
    let mut v: DenseVec<u32> = DenseVec::new();
    let a = v.push(5);
    if let Some(p) = v.get_mut(a) {
        *p = 55;
    }
    assert_eq!(v.get(a), Some(&55));
}

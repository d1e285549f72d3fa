use shared_refs::counted::CellStore;
use shared_refs::split_arc::{ArcImmut, ArcMut};

#[test]
fn lend_two_readers_then_take_back() {
    let mut store: CellStore<String> = CellStore::new();
    let new_a = ArcMut::new(String::from("Hello"));
    let immut_a1 = new_a.clone_immut(&mut store);
    assert_eq!(ArcImmut::strong_count(&immut_a1, &store), 1);
    let immut_a2 = immut_a1.clone_immut(&mut store);
    assert_eq!(ArcImmut::strong_count(&immut_a1, &store), 2);
    assert_eq!(ArcImmut::strong_count(&immut_a2, &store), 2);
    assert_eq!(immut_a2.deref(&store), "Hello");
    immut_a2.release(&mut store);
    assert_eq!(ArcImmut::strong_count(&immut_a1, &store), 1);
    let mut a3 = ArcImmut::back_to_mut(immut_a1, &mut store);
    ArcMut::get_mut_unchecked(&mut a3).push_str("World");
    assert!(!store.is_live(0));
}

#[test]
fn dropping_readers_lowers_the_count_and_keeps_the_cell() {
    let mut store: CellStore<u8> = CellStore::new();
    let a = ArcMut::new(4u8).clone_immut(&mut store);
    let mut b = a.clone_immut(&mut store);
    *ArcImmut::get_mut_unchecked(&mut b, &mut store) = 6;
    assert_eq!(*a.deref(&store), 6);
    a.release(&mut store);
    assert_eq!(ArcImmut::strong_count(&b, &store), 1);
    let c = b.clone_immut(&mut store);
    b.release(&mut store);
    assert_eq!(ArcImmut::strong_count(&c, &store), 1);
    assert!(store.is_live(0));
}

#[test]
fn owners_deref_to_their_values() {
    let a = ArcMut::new(String::from("Hello"));
    assert_eq!(a.len(), 5);
    let r = shared_refs::new_ref::RefMut::new(3u8);
    assert_eq!(*r, 3);
    let f = shared_refs::fractional_ref::FRefMut::new(String::from("x"));
    assert_eq!(f.as_str(), "x");
}

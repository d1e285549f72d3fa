use shared_refs::counted::CellStore;
use shared_refs::fractional_ref::{remove_string, FRefImmut, FRefMut};

#[test]
fn to_immut_then_back_to_mut_returns_the_value() {
    let mut store: CellStore<String> = CellStore::new();
    let h = FRefMut::new(String::from("Hello")).to_immut(&mut store);
    assert_eq!(FRefImmut::strong_count(&h, &store), 1);
    assert_eq!(h.as_ref(&store), "Hello");
    assert_eq!(store.len(), 1);
    assert!(store.is_live(0));
    let mut m = h.back_to_mut(&mut store);
    assert!(!store.is_live(0));
    FRefMut::get_mut(&mut m).push_str("World");
    assert!(m == FRefMut::new(String::from("HelloWorld")));
}

#[test]
fn clone_immut_counts_each_handle() {
    let mut store: CellStore<String> = CellStore::new();
    let h = FRefMut::new(String::from("Hello")).to_immut(&mut store);
    let a = h.clone_immut(&mut store);
    let b = a.clone_immut(&mut store);
    assert_eq!(FRefImmut::strong_count(&h, &store), 3);
    assert_eq!(FRefImmut::strong_count(&b, &store), 3);
    assert_eq!(b.as_ref(&store), "Hello");
    a.release(&mut store, false);
    assert_eq!(FRefImmut::strong_count(&h, &store), 2);
    b.release(&mut store, false);
    assert_eq!(FRefImmut::strong_count(&h, &store), 1);
    h.back_and_drop(&mut store);
    assert!(!store.is_live(0));
}

#[test]
fn clone_then_release_restores_the_count() {
    let mut store: CellStore<u64> = CellStore::new();
    let h = FRefMut::new(7u64).to_immut(&mut store);
    let c = h.clone_immut(&mut store);
    c.release(&mut store, false);
    assert_eq!(FRefImmut::strong_count(&h, &store), 1);
    assert_eq!(*h.as_ref(&store), 7);
}

#[test]
fn dropping_the_last_handle_while_unwinding_frees_the_cell() {
    let mut store: CellStore<String> = CellStore::new();
    let h = FRefMut::new(String::from("Hello")).to_immut(&mut store);
    h.release(&mut store, true);
    assert!(!store.is_live(0));
}

#[test]
fn remove_string_drops_matching_handles_in_order() {
    let mut store: CellStore<String> = CellStore::new();
    let h = FRefMut::new(String::from("Hello")).to_immut(&mut store);
    let w = FRefMut::new(String::from("World")).to_immut(&mut store);
    let mut vec: Vec<FRefImmut<String>> = Vec::new();
    vec.push(h.clone_immut(&mut store));
    vec.push(w.clone_immut(&mut store));
    vec.push(h.clone_immut(&mut store));
    vec.push(w.clone_immut(&mut store));
    assert_eq!(FRefImmut::strong_count(&h, &store), 3);
    remove_string(&mut vec, &String::from("Hello"), &mut store);
    assert_eq!(vec.len(), 2);
    assert_eq!(vec[0].as_ref(&store), "World");
    assert_eq!(vec[1].as_ref(&store), "World");
    assert_eq!(FRefImmut::strong_count(&h, &store), 1);
    assert_eq!(FRefImmut::strong_count(&w, &store), 3);
    let back = h.back_to_mut(&mut store);
    assert!(back == FRefMut::new(String::from("Hello")));
}

#[test]
fn remove_string_with_a_misspelling_keeps_everything() {
    let mut store: CellStore<String> = CellStore::new();
    let h = FRefMut::new(String::from("Hello")).to_immut(&mut store);
    let mut vec: Vec<FRefImmut<String>> = Vec::new();
    for _ in 0..10 {
        vec.push(h.clone_immut(&mut store));
    }
    remove_string(&mut vec, &String::from("Hell"), &mut store);
    assert_eq!(vec.len(), 10);
    assert_eq!(FRefImmut::strong_count(&h, &store), 11);
}

#[test]
fn handle_equality_compares_values() {
    let mut store: CellStore<String> = CellStore::new();
    let a = FRefMut::new(String::from("Hello")).to_immut(&mut store);
    let b = FRefMut::new(String::from("Hello")).to_immut(&mut store);
    let c = FRefMut::new(String::from("World")).to_immut(&mut store);
    assert!(a.eq(&b, &store));
    assert!(!a.ne(&b, &store));
    assert!(a.ne(&c, &store));
    assert!(FRefMut::new(1u8) != FRefMut::new(2u8));
}

#[test]
fn can_remove_string_spots_a_last_handle() {
    let mut store: CellStore<String> = CellStore::new();
    let h = FRefMut::new(String::from("Hello")).to_immut(&mut store);
    let w = FRefMut::new(String::from("World")).to_immut(&mut store);
    let mut vec: Vec<FRefImmut<String>> = Vec::new();
    vec.push(h.clone_immut(&mut store));
    vec.push(w);
    assert!(fractional_ref_can_remove(&vec, "Hello", &store));
    assert!(!fractional_ref_can_remove(&vec, "World", &store));
    assert!(fractional_ref_can_remove(&vec, "Hell", &store));
    let _ = h;
}

fn fractional_ref_can_remove(vec: &Vec<FRefImmut<String>>, s: &str, store: &CellStore<String>) -> bool {
    shared_refs::fractional_ref::can_remove_string(vec, &String::from(s), store)
}

#[test]
fn get_mut_unchecked_is_seen_by_every_handle() {
    let mut store: CellStore<String> = CellStore::new();
    let mut h = FRefMut::new(String::from("Hello")).to_immut(&mut store);
    let c = h.clone_immut(&mut store);
    FRefImmut::get_mut_unchecked(&mut h, &mut store).push_str("!");
    assert_eq!(c.as_ref(&store), "Hello!");
    assert_eq!(FRefImmut::strong_count(&c, &store), 2);
}

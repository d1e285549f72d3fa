use shared_refs::counted::CellStore;
use shared_refs::new_ref::{remove_string, RefImmut, RefMut};

fn hello_world_vec(store: &mut CellStore<String>) -> (Vec<RefImmut<String>>, RefImmut<String>, RefImmut<String>) {
    let h = RefMut::new(String::from("Hello")).to_immut(store);
    let w = RefMut::new(String::from("World")).to_immut(store);
    let h2 = h.clone_immut(store);
    let h3 = h.clone_immut(store);
    let w2 = w.clone_immut(store);
    let w3 = w.clone_immut(store);
    let mut vec: Vec<RefImmut<String>> = Vec::new();
    vec.push(h);
    vec.push(w);
    vec.push(h2);
    vec.push(w2);
    (vec, h3, w3)
}

#[test]
fn remove_string_then_back_to_mut() {
    let mut store: CellStore<String> = CellStore::new();
    let (mut vec, h3, w3) = hello_world_vec(&mut store);
    assert_eq!(RefImmut::strong_count(&h3, &store), 3);
    remove_string(&mut vec, String::from("Hello"), &mut store);
    assert_eq!(vec.len(), 2);
    assert_eq!(vec[0].deref(&store), "World");
    assert_eq!(vec[1].deref(&store), "World");
    assert_eq!(RefImmut::strong_count(&h3, &store), 1);
    let mut h4 = h3.back_to_mut(&mut store);
    RefMut::get_mut_unchecked(&mut h4).push_str("World");
    assert!(h4 == RefMut::new(String::from("HelloWorld")));
    for x in vec {
        x.release(&mut store, false);
    }
    assert_eq!(RefImmut::strong_count(&w3, &store), 1);
    let w4 = w3.back_to_mut(&mut store);
    assert!(w4 == RefMut::new(String::from("World")));
}

#[test]
fn last_release_while_unwinding_keeps_the_cell() {
    let mut store: CellStore<String> = CellStore::new();
    let b = RefMut::new(String::from("b")).to_immut(&mut store);
    b.release(&mut store, true);
    assert!(store.is_live(0));
}

#[test]
fn kept_cell_has_count_zero() {
    let mut store: CellStore<u32> = CellStore::new();
    let a = RefMut::new(5u32).to_immut(&mut store);
    let a2 = a.clone_immut(&mut store);
    a.release(&mut store, true);
    assert_eq!(RefImmut::strong_count(&a2, &store), 1);
    let mut a3 = a2.clone_immut(&mut store);
    *RefImmut::get_mut_unchecked(&mut a3, &mut store) = 9;
    assert_eq!(*a2.deref(&store), 9);
    a3.release(&mut store, false);
    a2.release(&mut store, true);
    assert!(store.is_live(0));
}

#[test]
fn ref_handle_equality_compares_values() {
    let mut store: CellStore<String> = CellStore::new();
    let a = RefMut::new(String::from("x")).to_immut(&mut store);
    let b = a.clone_immut(&mut store);
    let c = RefMut::new(String::from("y")).to_immut(&mut store);
    assert!(a.eq(&b, &store));
    assert!(a.ne(&c, &store));
    assert!(RefMut::new(3i32) == RefMut::new(3i32));
}

#[test]
fn can_remove_string_counts_every_handle_of_a_cell() {
    let mut store: CellStore<String> = CellStore::new();
    let (vec, h3, _w3) = hello_world_vec(&mut store);
    assert!(shared_refs::new_ref::can_remove_string(&vec, &String::from("Hello"), &store));
    h3.release(&mut store, false);
    assert!(!shared_refs::new_ref::can_remove_string(&vec, &String::from("Hello"), &store));
    assert!(shared_refs::new_ref::can_remove_string(&vec, &String::from("World"), &store));
}

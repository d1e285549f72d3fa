use shared_refs::new_arc::{NewArc, NewArcStore};

#[test]
fn into_inner_gives_the_value_to_the_last_owner() {
    let mut store: NewArcStore<String> = NewArcStore::new();
    let x = NewArc::new(String::from("Hello"), &mut store);
    let y = x.clone(&mut store);
    assert_eq!(NewArc::into_inner(x, &mut store), None);
    assert_eq!(NewArc::into_inner(y, &mut store), Some(String::from("Hello")));
}

#[test]
fn into_read_hands_out_a_copy_to_every_owner() {
    let mut store: NewArcStore<String> = NewArcStore::new();
    let x = NewArc::new(String::from("Hello"), &mut store);
    let y = x.clone(&mut store);
    let x_inner = NewArc::into_read(x, &store);
    let y_inner = NewArc::into_read(y, &store);
    assert_eq!(x_inner, Some(String::from("Hello")));
    assert_eq!(y_inner, Some(String::from("Hello")));
}

#[test]
fn get_mut_unchecked_changes_what_every_owner_sees() {
    let mut store: NewArcStore<u32> = NewArcStore::new();
    let mut x = NewArc::new(1u32, &mut store);
    let y = x.clone(&mut store);
    *NewArc::get_mut_unchecked(&mut x, &mut store) = 42;
    assert_eq!(NewArc::into_read(y, &store), Some(42));
    assert_eq!(NewArc::into_inner(x, &mut store), None);
}

#[test]
fn exactly_one_into_inner_gets_the_value() {
    let mut store: NewArcStore<String> = NewArcStore::new();
    let a = NewArc::new(String::from("v"), &mut store);
    let b = a.clone(&mut store);
    let c = b.clone(&mut store);
    assert_eq!(NewArc::strong_count(&c, &store), 3);
    assert_eq!(NewArc::into_inner(b, &mut store), None);
    assert_eq!(NewArc::into_inner(a, &mut store), None);
    assert_eq!(NewArc::into_inner(c, &mut store), Some(String::from("v")));
    assert_eq!(store.len(), 1);
}

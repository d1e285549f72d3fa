use shared_refs::baba_arc::{BabaArcImmut, BabaArcMut, BabaArcStore};

#[test]
fn new_cell_counts() {
    let mut store: BabaArcStore<String> = BabaArcStore::new();
    let a = BabaArcMut::new(String::from("Hello"), &mut store);
    assert_eq!(BabaArcMut::strong_count(&a, &store), 1);
    assert_eq!(BabaArcMut::write_count(&a, &store), 0);
    assert_eq!(BabaArcMut::read_count(&a, &store), 0);
}

#[test]
fn writer_turns_into_readers() {
    let mut store: BabaArcStore<String> = BabaArcStore::new();
    let mut new_a = BabaArcMut::new(String::from("Hello"), &mut store);
    new_a.deref_mut(&mut store).push_str("aaaa");
    assert_eq!(new_a.deref(&store), "Helloaaaa");
    let a_1 = new_a.clone_immut(&mut store);
    assert_eq!(BabaArcImmut::read_count(&a_1, &store), 1);
    assert_eq!(BabaArcImmut::write_count(&a_1, &store), usize::MAX);
    let a_2 = a_1.clone_immut(&mut store);
    assert_eq!(BabaArcImmut::read_count(&a_2, &store), 2);
    assert_eq!(BabaArcImmut::strong_count(&a_2, &store), 1);
    assert_eq!(a_2.deref(&store), "Helloaaaa");
    a_2.release(&mut store);
    assert_eq!(BabaArcImmut::read_count(&a_1, &store), 1);
    a_1.release(&mut store);
    let probe = BabaArcMut::new(String::new(), &mut store);
    assert_eq!(BabaArcMut::read_count(&probe, &store), 0);
}

#[test]
fn tallies_wrap_around() {
    let mut store: BabaArcStore<u8> = BabaArcStore::new();
    let a = BabaArcMut::new(0u8, &mut store);
    BabaArcMut::decrement_read_count(&a, &mut store);
    assert_eq!(BabaArcMut::read_count(&a, &store), usize::MAX);
    BabaArcMut::increment_read_count(&a, &mut store);
    assert_eq!(BabaArcMut::read_count(&a, &store), 0);
    BabaArcMut::increment_write_count(&a, &mut store);
    BabaArcMut::increment_write_count(&a, &mut store);
    assert_eq!(BabaArcMut::write_count(&a, &store), 2);
    BabaArcMut::decrement_write_count(&a, &mut store);
    assert_eq!(BabaArcMut::write_count(&a, &store), 1);
    a.release(&mut store);
}

#[test]
fn reader_tallies() {
    let mut store: BabaArcStore<u8> = BabaArcStore::new();
    let r = BabaArcMut::new(1u8, &mut store).clone_immut(&mut store);
    BabaArcImmut::increment_read_count(&r, &mut store);
    assert_eq!(BabaArcImmut::read_count(&r, &store), 2);
    BabaArcImmut::decrement_read_count(&r, &mut store);
    BabaArcImmut::decrement_read_count(&r, &mut store);
    assert_eq!(BabaArcImmut::read_count(&r, &store), 0);
}

#[test]
fn read_count_is_readers_plus_increments_minus_decrements() {
    let mut store: BabaArcStore<u8> = BabaArcStore::new();
    let r1 = BabaArcMut::new(0u8, &mut store).clone_immut(&mut store);
    let r2 = r1.clone_immut(&mut store);
    let r3 = r2.clone_immut(&mut store);
    BabaArcImmut::increment_read_count(&r1, &mut store);
    BabaArcImmut::increment_read_count(&r1, &mut store);
    BabaArcImmut::decrement_read_count(&r3, &mut store);
    r2.release(&mut store);
    assert_eq!(BabaArcImmut::read_count(&r1, &store), 2 + 2 - 1);
    assert_eq!(store.len(), 1);
    r3.release(&mut store);
    r1.release(&mut store);
}

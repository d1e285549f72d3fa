use shared_refs::counted::CellStore;
use shared_refs::fractional_ref::{self, FRefImmut, FRefMut};
use shared_refs::new_ref::{self, RefImmut, RefMut};
use shared_refs::lending::lend_clones;
use shared_refs::random_clones::{draw_coin_flips, draw_round_count, push_random_clones};

#[test]
fn round_counts_stay_in_range_and_vary() {
    let mut rng = rand::thread_rng();
    let mut seen = [false; 11];
    for _ in 0..500 {
        let n = draw_round_count(&mut rng);
        assert!((1..=10).contains(&n));
        seen[n] = true;
    }
    assert!(seen.iter().filter(|b| **b).count() > 1);
}

#[test]
fn random_fref_clones_then_removal_restores_counts() {
    let mut rng = rand::thread_rng();
    let mut store: CellStore<String> = CellStore::new();
    let w = FRefMut::new(String::from("World")).to_immut(&mut store);
    let h = FRefMut::new(String::from("Hello")).to_immut(&mut store);
    let mut vec: Vec<FRefImmut<String>> = Vec::new();
    let flips = push_random_clones(&mut vec, &h, &w, &mut store, &mut rng, 200);
    assert_eq!(flips.len(), 200);
    for (j, flip) in flips.iter().enumerate() {
        let expected = if *flip { "Hello" } else { "World" };
        assert_eq!(vec[j].as_ref(&store), expected);
    }
    assert_eq!(vec.len(), 200);
    let hellos = vec.iter().filter(|x| x.as_ref(&store) == "Hello").count();
    assert!(hellos > 0 && hellos < 200);
    assert_eq!(FRefImmut::strong_count(&h, &store), 1 + hellos);
    assert_eq!(FRefImmut::strong_count(&w, &store), 1 + 200 - hellos);
    fractional_ref::remove_string(&mut vec, &String::from("Hello"), &mut store);
    assert_eq!(vec.len(), 200 - hellos);
    assert_eq!(FRefImmut::strong_count(&h, &store), 1);
    let _ = h.back_to_mut(&mut store);
}

#[test]
fn random_ref_clones_then_removal_restores_counts() {
    let mut rng = rand::thread_rng();
    let mut store: CellStore<String> = CellStore::new();
    let h = RefMut::new(String::from("Hello")).to_immut(&mut store);
    let w = RefMut::new(String::from("World")).to_immut(&mut store);
    let rounds = draw_round_count(&mut rng);
    let mut vec: Vec<RefImmut<String>> = Vec::new();
    let flips = push_random_clones(&mut vec, &h, &w, &mut store, &mut rng, rounds);
    assert_eq!(flips.iter().filter(|f| **f).count(), vec.iter().filter(|x| x.deref(&store) == "Hello").count());
    assert_eq!(vec.len(), rounds);
    let hellos = vec.iter().filter(|x| x.deref(&store) == "Hello").count();
    assert_eq!(RefImmut::strong_count(&h, &store), 1 + hellos);
    new_ref::remove_string(&mut vec, String::from("Hello"), &mut store);
    assert_eq!(vec.len(), rounds - hellos);
    assert_eq!(RefImmut::strong_count(&h, &store), 1);
    assert_eq!(RefImmut::strong_count(&w, &store), 1 + vec.len());
}

#[test]
fn coin_flips_come_out_both_ways() {
    let mut rng = rand::thread_rng();
    let flips = draw_coin_flips(&mut rng, 300);
    assert_eq!(flips.len(), 300);
    assert!(flips.iter().any(|f| *f));
    assert!(flips.iter().any(|f| !*f));
}

#[test]
fn lend_clones_follows_the_choices() {
    let mut store: CellStore<String> = CellStore::new();
    let h = FRefMut::new(String::from("Hello")).to_immut(&mut store);
    let w = FRefMut::new(String::from("World")).to_immut(&mut store);
    let mut vec: Vec<FRefImmut<String>> = Vec::new();
    vec.push(h.clone_immut(&mut store));
    lend_clones(&mut vec, &h, &w, &mut store, &vec![true, false, false, true, false]);
    assert_eq!(vec.len(), 6);
    let got: Vec<&str> = vec.iter().map(|x| x.as_ref(&store).as_str()).collect();
    assert_eq!(got, vec!["Hello", "Hello", "World", "World", "Hello", "World"]);
    assert_eq!(FRefImmut::strong_count(&h, &store), 4);
    assert_eq!(FRefImmut::strong_count(&w, &store), 4);
}

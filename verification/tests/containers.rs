use std::collections::hash_map::RandomState;
use std::collections::{HashMap, HashSet};

use rand::prelude::SliceRandom;
use rand::thread_rng;

use hashable::{Fnv1aStrategy, HashableMap, HashableSet, StdStrategy};

fn random_values() -> [i32; 128] {
    let mut values = [0i32; 128];
    for v in values.iter_mut() {
        *v = rand::random();
    }
    values
}

fn shuffle(values: &[i32; 128]) -> [i32; 128] {
    let mut values = *values;
    values.shuffle(&mut thread_rng());
    values
}

fn map_of(entries: &[(i32, i32)]) -> HashableMap<i32, i32> {
    let mut m = HashableMap::new();
    m.extend(entries.to_vec());
    m
}

fn set_of(elems: &[i32]) -> HashableSet<i32> {
    let mut s = HashableSet::new();
    s.extend(elems.to_vec());
    s
}

#[test]
fn map_insertion_order_random_state() {
    let values = random_values();
    let values_shuffled = shuffle(&values);
    let values_other = random_values();

    assert_ne!(values, values_shuffled);
    assert_ne!(values, values_other);
    assert_ne!(values_shuffled, values_other);

    let entries: Vec<(i32, i32)> = values.iter().map(|&k| (k, k)).collect();
    let entries_shuffled: Vec<(i32, i32)> = values_shuffled.iter().map(|&k| (k, k)).collect();
    let entries_other: Vec<(i32, i32)> = values_other.iter().map(|&k| (k, k)).collect();

    let a = map_of(&entries);
    let b = map_of(&entries_shuffled);
    let c = map_of(&entries_other);

    let st = StdStrategy;
    assert_eq!(a.combined_hash(&st), b.combined_hash(&st));
    assert_ne!(a.combined_hash(&st), c.combined_hash(&st));
    assert_ne!(b.combined_hash(&st), c.combined_hash(&st));
}

#[test]
fn set_insertion_order_random_state() {
    let values = random_values();
    let values_shuffled = shuffle(&values);
    let values_other = random_values();

    assert_ne!(values, values_shuffled);
    assert_ne!(values, values_other);
    assert_ne!(values_shuffled, values_other);

    let a = set_of(&values);
    let b = set_of(&values_shuffled);
    let c = set_of(&values_other);

    let st = StdStrategy;
    assert_eq!(a.combined_hash(&st), b.combined_hash(&st));
    assert_ne!(a.combined_hash(&st), c.combined_hash(&st));
    assert_ne!(b.combined_hash(&st), c.combined_hash(&st));
}

#[test]
fn same_keys_different_values_gx_build_hasher() {
    let keys = random_values();
    let values1 = random_values();
    let values2 = random_values();

    assert_ne!(values1, values2);

    let entries1: Vec<(i32, i32)> =
        keys.iter().copied().zip(values1.iter().copied()).collect();
    let entries2: Vec<(i32, i32)> =
        keys.iter().copied().zip(values2.iter().copied()).collect();

    let a = map_of(&entries1);
    let b = map_of(&entries2);

    let st = StdStrategy;
    assert_ne!(a.combined_hash(&st), b.combined_hash(&st));
}

#[test]
fn different_keys_same_values_gx_build_hasher() {
    let keys1 = random_values();
    let keys2 = random_values();
    let values = random_values();

    assert_ne!(keys1, keys2);

    let entries1: Vec<(i32, i32)> =
        keys1.iter().copied().zip(values.iter().copied()).collect();
    let entries2: Vec<(i32, i32)> =
        keys2.iter().copied().zip(values.iter().copied()).collect();

    let a = map_of(&entries1);
    let b = map_of(&entries2);

    let st = StdStrategy;
    assert_ne!(a.combined_hash(&st), b.combined_hash(&st));
}

#[test]
fn map_concrete_scenario() {
    let mut a: HashableMap<u64, String> = HashableMap::new();
    a.insert(1, String::from("1"));
    a.insert(2, String::from("2"));

    let mut b: HashableMap<u64, String> = HashableMap::new();
    b.insert(2, String::from("2"));
    b.insert(1, String::from("1"));

    let mut c: HashableMap<u64, String> = HashableMap::new();
    c.insert(1, String::from("1"));
    c.insert(2, String::from("2"));
    c.insert(3, String::from("3"));

    let st = StdStrategy;
    assert_eq!(a.combined_hash(&st), b.combined_hash(&st));
    assert_ne!(a.combined_hash(&st), c.combined_hash(&st));
}

#[test]
fn set_concrete_scenario() {
    let a = set_of(&[1, 2]);
    let b = set_of(&[2, 1]);
    let c = set_of(&[1, 3]);

    let st = StdStrategy;
    assert_eq!(a.combined_hash(&st), b.combined_hash(&st));
    assert_ne!(a.combined_hash(&st), c.combined_hash(&st));
}

#[test]
fn empty_containers_hash_to_zero() {
    let m: HashableMap<u64, u64> = HashableMap::new();
    let s: HashableSet<u64> = HashableSet::new();
    assert_eq!(m.combined_hash(&StdStrategy), 0);
    assert_eq!(s.combined_hash(&StdStrategy), 0);
    assert_eq!(m.combined_hash(&Fnv1aStrategy), 0);
    assert_eq!(s.combined_hash(&Fnv1aStrategy), 0);
}

#[test]
fn combined_hash_deterministic() {
    let a = set_of(&[5, 7, 11]);
    let st = StdStrategy;
    let first = a.combined_hash(&st);
    assert_eq!(a.combined_hash(&st), first);
    assert_eq!(a.combined_hash(&st), first);

    let m = map_of(&[(5, 50), (7, 70)]);
    let hm = m.combined_hash(&st);
    assert_eq!(m.combined_hash(&st), hm);
}

#[test]
fn strategies_differ_on_same_contents() {
    let a = set_of(&[1, 2, 3]);
    assert_ne!(a.combined_hash(&StdStrategy), a.combined_hash(&Fnv1aStrategy));

    let m = map_of(&[(1, 2), (3, 4)]);
    assert_ne!(m.combined_hash(&StdStrategy), m.combined_hash(&Fnv1aStrategy));
}

#[test]
fn fnv1a_known_aggregates() {
    let mut one: HashableSet<u64> = HashableSet::new();
    one.insert(1);
    assert_eq!(one.combined_hash(&Fnv1aStrategy), 0x89cd31291d2aefa4);

    let mut two: HashableSet<u64> = HashableSet::new();
    two.insert(1);
    two.insert(2);
    assert_eq!(two.combined_hash(&Fnv1aStrategy), 0x708ab76d5b23bdab);

    let mut m: HashableMap<u64, u64> = HashableMap::new();
    m.insert(1, 2);
    assert_eq!(m.combined_hash(&Fnv1aStrategy), 0x7717980363c8e066);
}

#[test]
fn fnv1a_signed_representation() {
    let mut s: HashableSet<i32> = HashableSet::new();
    s.insert(-1);
    assert_eq!(s.combined_hash(&Fnv1aStrategy), 0x994f76653e2a3951);
}

#[test]
fn fnv1a_string_representation() {
    let mut s: HashableSet<String> = HashableSet::new();
    s.insert(String::from("ab"));
    assert_eq!(s.combined_hash(&Fnv1aStrategy), 0xe7202e190542452f);
}

#[test]
fn key_value_asymmetry() {
    let a = map_of(&[(1, 10), (2, 20)]);
    let b = map_of(&[(1, 20), (2, 10)]);
    let st = StdStrategy;
    assert_ne!(a.combined_hash(&st), b.combined_hash(&st));

    let c = map_of(&[(10, 1), (20, 2)]);
    assert_ne!(a.combined_hash(&st), c.combined_hash(&st));
}

#[test]
fn explicit_hasher_constructors() {
    let mut m: HashableMap<u64, u64, RandomState> =
        HashableMap::with_hasher(RandomState::new());
    assert_eq!(m.len(), 0);
    m.insert(4, 40);
    assert_eq!(m.len(), 1);
    assert_eq!(m.get(&4), Some(&40));

    let mut m2: HashableMap<u64, u64, RandomState> =
        HashableMap::with_capacity_and_hasher(16, RandomState::new());
    assert!(m2.is_empty());
    m2.insert(4, 40);
    assert_eq!(m.combined_hash(&StdStrategy), m2.combined_hash(&StdStrategy));

    let mut s: HashableSet<u64, RandomState> = HashableSet::with_hasher(RandomState::new());
    assert_eq!(s.len(), 0);
    s.insert(4);
    assert!(s.contains(&4));

    let mut s2: HashableSet<u64, RandomState> =
        HashableSet::with_capacity_and_hasher(16, RandomState::new());
    assert!(s2.is_empty());
    s2.insert(4);
    assert_eq!(s.combined_hash(&StdStrategy), s2.combined_hash(&StdStrategy));
}

#[test]
fn pre_sized_constructors() {
    let mut m: HashableMap<u64, u64> = HashableMap::with_capacity(32);
    assert!(m.is_empty());
    m.insert(1, 2);
    let plain: HashableMap<u64, u64> = map_of_u64(&[(1, 2)]);
    assert_eq!(m.combined_hash(&StdStrategy), plain.combined_hash(&StdStrategy));

    let mut s: HashableSet<u64> = HashableSet::with_capacity(32);
    assert!(s.is_empty());
    s.insert(1);
    assert_eq!(s.len(), 1);
}

fn map_of_u64(entries: &[(u64, u64)]) -> HashableMap<u64, u64> {
    let mut m = HashableMap::new();
    for &(k, v) in entries {
        m.insert(k, v);
    }
    m
}

#[test]
fn conversion_round_trip() {
    let mut inner: HashMap<u64, u64> = HashMap::new();
    inner.insert(1, 10);
    inner.insert(2, 20);
    let wrapped: HashableMap<u64, u64> = HashableMap::from_map(inner);
    assert_eq!(wrapped.get(&1), Some(&10));
    let back = wrapped.into_map();
    assert_eq!(back.get(&2), Some(&20));
    assert_eq!(back.len(), 2);

    let mut sinner: HashSet<u64> = HashSet::new();
    sinner.insert(7);
    let swrapped: HashableSet<u64> = HashableSet::from_set(sinner);
    assert!(swrapped.contains(&7));
    let sback = swrapped.into_set();
    assert!(sback.contains(&7));
}

#[test]
fn mutation_tracks_contents() {
    let mut a = set_of(&[1, 2]);
    let only_one = set_of(&[1]);
    let st = StdStrategy;
    assert_ne!(a.combined_hash(&st), only_one.combined_hash(&st));
    assert!(a.remove(&2));
    assert_eq!(a.combined_hash(&st), only_one.combined_hash(&st));
    a.clear();
    assert_eq!(a.combined_hash(&st), 0);

    let mut m = map_of(&[(1, 10), (2, 20)]);
    let smaller = map_of(&[(1, 10)]);
    assert_eq!(m.remove(&2), Some(20));
    assert_eq!(m.combined_hash(&st), smaller.combined_hash(&st));
    m.clear();
    assert_eq!(m.combined_hash(&st), 0);
}

#[test]
fn extend_matches_single_inserts() {
    let mut a: HashableMap<i32, i32> = HashableMap::new();
    a.extend(vec![(1, 10), (2, 20), (1, 11)]);
    let mut b: HashableMap<i32, i32> = HashableMap::new();
    b.insert(1, 10);
    b.insert(2, 20);
    b.insert(1, 11);
    assert_eq!(a.get(&1), Some(&11));
    assert_eq!(a.combined_hash(&StdStrategy), b.combined_hash(&StdStrategy));

    let mut s: HashableSet<i32> = HashableSet::new();
    s.extend(vec![3, 4, 3]);
    assert_eq!(s.len(), 2);
}

#[test]
fn listing_contents() {
    let m = map_of(&[(1, 10), (2, 20)]);
    let mut entries = m.to_entries();
    entries.sort();
    assert_eq!(entries, vec![(1, 10), (2, 20)]);

    let s = set_of(&[3, 1, 2]);
    let mut elems = s.to_elements();
    elems.sort();
    assert_eq!(elems, vec![1, 2, 3]);
}

#[test]
fn content_equality() {
    let a = map_of(&[(1, 10), (2, 20)]);
    let b = map_of(&[(2, 20), (1, 10)]);
    let c = map_of(&[(1, 10), (2, 21)]);
    let d = map_of(&[(1, 10)]);
    assert!(a.content_eq(&b));
    assert!(!a.content_eq(&c));
    assert!(!a.content_eq(&d));
    assert!(!d.content_eq(&a));

    let s1 = set_of(&[1, 2, 3]);
    let s2 = set_of(&[3, 2, 1]);
    let s3 = set_of(&[1, 2]);
    assert!(s1.content_eq(&s2));
    assert!(!s1.content_eq(&s3));
    assert!(!s3.content_eq(&s1));
}

use std::collections::hash_map::RandomState;
use std::collections::HashMap;

use mapbench::api::{ConcurrentMap, NopWriteHandle, ReadGuard, ReadHandle, WriteGuard, WriteHandle};
use mapbench::arc_map::ArcHashMap;
use mapbench::bench::{apply_write, drive_writer, read_once, read_range};
use mapbench::workload::{generate_workload, WriteOperation};

type Arc3 = ArcHashMap<u64, u64, RandomState>;

fn doubled(keys: &[u64]) -> HashMap<u64, u64> {
    let mut m = HashMap::new();
    for &k in keys {
        m.insert(k, k * 2);
    }
    m
}

#[test]
fn nop_handle_accepts_and_discards() {
    let mut w = NopWriteHandle::<u64, u64, RandomState>::new();
    let mut g = WriteHandle::guard(&mut w);
    assert!(g.insert(1, 2));
    assert!(g.insert(1, 3));
    assert!(g.update(9, 9));
    assert!(g.remove(1));
    assert!(g.remove(1));
    let copy = w.clone();
    let mut g2 = NopWriteHandle::<u64, u64, RandomState>::new();
    assert!(WriteGuard::<u64, u64, RandomState>::insert(&mut g2, 5, 5));
    let _ = copy;
}

#[test]
fn arc_map_new_observes_exactly_the_input() {
    let (_w, r) = <Arc3 as ConcurrentMap<u64, u64, RandomState>>::new(doubled(&[1, 2, 3]));
    let g = r.guard();
    assert_eq!(g.len(), 3);
    assert_eq!(g.get_and_test(&2, |v| *v == 4), Some(true));
    assert_eq!(g.get_and_test(&2, |v| *v == 5), Some(false));
    assert_eq!(g.get_and_test(&7, |v| *v == 14), None);
}

#[test]
fn arc_map_with_capacity_is_empty() {
    let (_w, r) =
        <Arc3 as ConcurrentMap<u64, u64, RandomState>>::with_capacity(64, RandomState::new());
    let g = r.guard();
    assert_eq!(g.len(), 0);
    assert_eq!(g.get_and_test(&0, |_| true), None);
}

#[test]
fn arc_map_clone_shares_the_snapshot() {
    let (_w, r) = <Arc3 as ConcurrentMap<u64, u64, RandomState>>::new(doubled(&[4, 5]));
    let r2 = r.clone();
    assert_eq!(r2.guard().len(), 2);
    assert_eq!(r2.guard().get_and_test(&5, |v| *v == 10), Some(true));
}

#[test]
fn arc_map_writes_are_discarded() {
    let (mut w, r) = <Arc3 as ConcurrentMap<u64, u64, RandomState>>::new(doubled(&[1]));
    let mut g = WriteHandle::guard(&mut w);
    assert!(apply_write(&mut g, WriteOperation::Remove(1)));
    assert!(apply_write(&mut g, WriteOperation::Insert(8, 16)));
    assert_eq!(r.guard().get_and_test(&1, |v| *v == 2), Some(true));
    assert_eq!(r.guard().get_and_test(&8, |_| true), None);
    let outcomes = drive_writer(&mut w, &vec![WriteOperation::Update(3, 7), WriteOperation::Remove(9)]);
    assert_eq!(outcomes, vec![true, true]);
    assert_eq!(r.guard().len(), 1);
}

#[test]
fn construction_fidelity_on_generated_workload() {
    let w = generate_workload(11, 1000, 1000, 3000, 50_000).unwrap();
    let expected = w.initial.clone();
    let (_wh, r) = <Arc3 as ConcurrentMap<u64, u64, RandomState>>::new(w.initial);
    assert_eq!(r.guard().len(), expected.len());
    for (&k, _) in expected.iter() {
        assert_eq!(r.guard().get_and_test(&k, |v| *v == k * 2), Some(true));
        assert!(read_once(&r, k));
    }
}

#[test]
fn read_once_passes_on_absent_and_doubled_keys() {
    let mut m = doubled(&[1, 2]);
    m.insert(3, 7);
    let (_w, r) = <Arc3 as ConcurrentMap<u64, u64, RandomState>>::new(m);
    assert!(read_once(&r, 1));
    assert!(read_once(&r, 100));
    assert!(!read_once(&r, 3));
    assert!(read_range(&r, 0, 3));
    assert!(!read_range(&r, 0, 4));
    assert!(read_range(&r, 4, 10));
    assert!(read_range(&r, 5, 5));
}

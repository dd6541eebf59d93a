use std::collections::HashSet;

use mapbench::bench::{ops_per_reader, total_reader_ops, KeyCycle};
use mapbench::workload::{build_workload, generate_workload, plan_writes, ConfigError, WriteOperation, WritePlan};

#[test]
fn plan_splits_writes_by_ratio() {
    let p = plan_writes(1000, 1000, 1_000_000).unwrap();
    assert_eq!(p, WritePlan { total: 1000, updates: 500, removes: 250, inserts: 250 });
    let q = plan_writes(7, 1000, 100).unwrap();
    assert_eq!(q, WritePlan { total: 7, updates: 3, removes: 1, inserts: 3 });
    let t = plan_writes(999, 1500, 100_000).unwrap();
    assert_eq!(t.total, 1498);
}

#[test]
fn plan_refuses_too_many_writes() {
    assert_eq!(
        plan_writes(1000, 1000, 1000),
        Err(ConfigError::TooManyWrites { writes: 1000, keys: 1000 })
    );
    assert!(plan_writes(1000, 1000, 1001).is_ok());
    assert_eq!(
        plan_writes(usize::MAX, usize::MAX, usize::MAX).unwrap_err(),
        ConfigError::TooManyWrites {
            writes: (usize::MAX as u128 * usize::MAX as u128) / 1000,
            keys: usize::MAX
        }
    );
}

#[test]
fn build_workload_places_each_kind() {
    let keys = vec![10, 11, 12, 13, 14, 15];
    let plan = plan_writes(5, 1000, keys.len()).unwrap();
    let (map, writes) = build_workload(&keys, plan);
    assert_eq!(plan, WritePlan { total: 5, updates: 2, removes: 1, inserts: 2 });
    assert_eq!(map.len(), 4);
    for k in [10u64, 11, 12, 13] {
        assert_eq!(map.get(&k), Some(&(k * 2)));
    }
    assert_eq!(
        writes,
        vec![
            WriteOperation::Remove(10),
            WriteOperation::Update(11, 23),
            WriteOperation::Update(12, 25),
            WriteOperation::Insert(14, 28),
            WriteOperation::Insert(15, 30),
        ]
    );
}

fn key_of(op: &WriteOperation) -> u64 {
    match *op {
        WriteOperation::Insert(k, _) | WriteOperation::Update(k, _) | WriteOperation::Remove(k) => k,
    }
}

#[test]
fn generated_workload_has_the_planned_shape() {
    let w = generate_workload(42, 1000, 1000, 20_000, 200_000).unwrap();
    assert_eq!(w.writes.len(), 1000);
    let removes = w.writes.iter().filter(|o| matches!(o, WriteOperation::Remove(_))).count();
    let updates = w.writes.iter().filter(|o| matches!(o, WriteOperation::Update(..))).count();
    let inserts = w.writes.iter().filter(|o| matches!(o, WriteOperation::Insert(..))).count();
    assert_eq!((updates, removes, inserts), (500, 250, 250));
    assert_eq!(w.keys.len(), 20_000);
    assert_eq!(w.initial.len(), 20_000 - 250);
    let distinct: HashSet<u64> = w.keys.iter().copied().collect();
    assert_eq!(distinct.len(), w.keys.len());
    assert!(w.keys.iter().all(|&k| k < 200_000));
    let targets: HashSet<u64> = w.writes.iter().map(key_of).collect();
    assert_eq!(targets.len(), 1000);
    for op in &w.writes {
        match *op {
            WriteOperation::Remove(k) => assert!(w.initial.contains_key(&k)),
            WriteOperation::Update(k, v) => {
                assert!(w.initial.contains_key(&k));
                assert_eq!(v, k * 2 + 1);
            }
            WriteOperation::Insert(k, v) => {
                assert!(!w.initial.contains_key(&k));
                assert_eq!(v, k * 2);
            }
        }
    }
    for (k, v) in &w.initial {
        assert_eq!(*v, k * 2);
    }
}

#[test]
fn generated_workload_is_shuffled() {
    let w = generate_workload(3, 1000, 1000, 5000, 100_000).unwrap();
    let (_, unshuffled) = build_workload(&w.keys, w.plan);
    assert_ne!(w.writes, unshuffled);
    let mut a: Vec<(u64, u64)> = w.writes.iter().map(|o| (key_of(o), 0)).collect();
    let mut b: Vec<(u64, u64)> = unshuffled.iter().map(|o| (key_of(o), 0)).collect();
    a.sort();
    b.sort();
    assert_eq!(a, b);
}

#[test]
fn generated_workload_repeats_with_its_seed() {
    let a = generate_workload(9, 2000, 500, 4000, 60_000).unwrap();
    let b = generate_workload(9, 2000, 500, 4000, 60_000).unwrap();
    assert_eq!(a.keys, b.keys);
    assert_eq!(a.writes, b.writes);
    assert_eq!(a.initial, b.initial);
}

#[test]
fn generated_workload_rejects_before_drawing() {
    let r = generate_workload(1, 5000, 1000, 5000, 100_000);
    assert_eq!(r.err(), Some(ConfigError::TooManyWrites { writes: 5000, keys: 5000 }));
}

#[test]
fn reader_shares_drop_the_remainder() {
    assert_eq!(ops_per_reader(20_000_000, 3), 6_666_666);
    assert_eq!(total_reader_ops(20_000_000, 3), 19_999_998);
    assert_eq!(ops_per_reader(5, 8), 0);
    assert_eq!(total_reader_ops(16, 4), 16);
}

#[test]
fn key_cycle_wraps_around_its_range() {
    let mut c = KeyCycle::new(1, 3);
    let keys: Vec<u64> = (0..7).map(|_| c.next()).collect();
    assert_eq!(keys, vec![3, 4, 5, 3, 4, 5, 3]);
    let mut single = KeyCycle::new(0, 1);
    assert_eq!(single.next(), 0);
    assert_eq!(single.next(), 0);
}

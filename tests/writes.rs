use std::collections::hash_map::RandomState;
use std::collections::HashMap;

use mapbench::api::{WriteGuard, WriteHandle};
use mapbench::bench::{apply_write, drive_writer, fill_guard};
use mapbench::metrics::{try_aggregate_throughput, ExecutionWindow};
use mapbench::workload::WriteOperation;

/// A plain map that takes writes, to watch what the library hands a guard.
struct PlainMap(HashMap<u64, u64>);

impl WriteGuard<u64, u64, RandomState> for PlainMap {
    fn insert(&mut self, key: u64, value: u64) -> bool {
        self.0.insert(key, value).is_none()
    }

    fn remove(&mut self, key: u64) -> bool {
        self.0.remove(&key).is_some()
    }

    fn update(&mut self, key: u64, value: u64) -> bool {
        match self.0.get_mut(&key) {
            Some(slot) => {
                *slot = value;
                true
            }
            None => false,
        }
    }
}

impl WriteHandle<u64, u64, RandomState> for PlainMap {
    type Guard<'a> = &'a mut PlainMap;

    fn guard(&mut self) -> &mut PlainMap {
        self
    }
}

impl<'a> WriteGuard<u64, u64, RandomState> for &'a mut PlainMap {
    fn insert(&mut self, key: u64, value: u64) -> bool {
        (**self).insert(key, value)
    }

    fn remove(&mut self, key: u64) -> bool {
        (**self).remove(key)
    }

    fn update(&mut self, key: u64, value: u64) -> bool {
        (**self).update(key, value)
    }
}

#[test]
fn apply_write_reports_presence() {
    let mut m = PlainMap(HashMap::new());
    assert!(apply_write(&mut m, WriteOperation::Insert(1, 2)));
    assert!(!apply_write(&mut m, WriteOperation::Insert(1, 4)));
    assert!(apply_write(&mut m, WriteOperation::Update(1, 3)));
    assert!(!apply_write(&mut m, WriteOperation::Update(2, 5)));
    assert_eq!(m.0.get(&1), Some(&3));
    assert_eq!(m.0.get(&2), None);
    assert!(apply_write(&mut m, WriteOperation::Remove(1)));
    assert!(!apply_write(&mut m, WriteOperation::Remove(1)));
    assert!(m.0.is_empty());
}

#[test]
fn insert_then_remove_is_seen_by_later_reads() {
    let mut m = PlainMap(HashMap::new());
    apply_write(&mut m, WriteOperation::Insert(21, 42));
    assert_eq!(m.0.get(&21).map(|v| *v == 42), Some(true));
    apply_write(&mut m, WriteOperation::Remove(21));
    assert_eq!(m.0.get(&21).map(|v| *v == 42), None);
}

#[test]
fn drive_writer_applies_in_order() {
    let mut m = PlainMap(HashMap::new());
    let writes = vec![
        WriteOperation::Insert(5, 10),
        WriteOperation::Update(5, 11),
        WriteOperation::Remove(6),
        WriteOperation::Insert(6, 12),
        WriteOperation::Remove(5),
    ];
    let outcomes = drive_writer(&mut m, &writes);
    assert_eq!(outcomes, vec![true, true, false, true, true]);
    assert_eq!(m.0.len(), 1);
    assert_eq!(m.0.get(&6), Some(&12));
}

#[test]
fn fill_guard_inserts_every_entry() {
    let mut m = PlainMap(HashMap::new());
    fill_guard(&mut m, vec![(1, 2), (3, 6), (5, 10)]);
    assert_eq!(m.0.len(), 3);
    assert_eq!(m.0.get(&3), Some(&6));
    let mut dup = PlainMap(HashMap::new());
    fill_guard(&mut dup, vec![(7, 1), (7, 2)]);
    assert_eq!(dup.0.get(&7), Some(&1));
}

#[test]
fn try_aggregate_throughput_detects_overflow() {
    let fast = ExecutionWindow { start: 0, end: 1, operations: usize::MAX / 2 };
    assert_eq!(try_aggregate_throughput(&vec![fast]), None);
    let a = ExecutionWindow { start: 0, end: 1_000_000_000, operations: 7 };
    let b = ExecutionWindow { start: 0, end: 500_000_000, operations: 7 };
    assert_eq!(try_aggregate_throughput(&vec![a, b]), Some(21));
    let near = ExecutionWindow { start: 0, end: 1_000_000_000, operations: usize::MAX };
    assert_eq!(try_aggregate_throughput(&vec![near]), Some(u64::MAX));
    assert_eq!(try_aggregate_throughput(&vec![near, a]), None);
}

use vstd::prelude::*;

use crate::api::{ReadGuard, ReadHandle, WriteGuard, WriteHandle};
use crate::workload::{expected_value, initial_map, WriteOperation, MAX_KEY};

verus! {

/// A read of `key` passes when the key is absent (a writer may have removed
/// it) or holds twice the key.
pub open spec fn read_passes(m: Map<u64, u64>, key: u64) -> bool {
    m.contains_key(key) ==> m[key] == expected_value(key)
}

/// Every key of an initial map holds twice itself, so a read of it right
/// after construction finds it and passes: `get_and_test(k, |v| v == 2k)`
/// gives `Some(true)` on a map whose view is that initial map.
pub proof fn lemma_initial_reads_pass(keys: Seq<u64>, held: int, key: u64)
    requires
        initial_map(keys, held).contains_key(key),
    ensures
        read_passes(initial_map(keys, held), key),
        initial_map(keys, held)[key] == expected_value(key),
{
}

/// The entries after one write.
pub open spec fn apply_op(m: Map<u64, u64>, op: WriteOperation) -> Map<u64, u64> {
    match op {
        WriteOperation::Insert(k, v) => m.insert(k, v),
        WriteOperation::Update(k, v) => if m.contains_key(k) {
            m.insert(k, v)
        } else {
            m
        },
        WriteOperation::Remove(k) => m.remove(k),
    }
}

/// What a write reports on entries `m`: whether its key was absent, for an
/// insert, or present, for an update or a remove.
pub open spec fn op_outcome(m: Map<u64, u64>, op: WriteOperation) -> bool {
    match op {
        WriteOperation::Insert(k, _) => !m.contains_key(k),
        WriteOperation::Update(k, _) => m.contains_key(k),
        WriteOperation::Remove(k) => m.contains_key(k),
    }
}

/// The entries after inserting the pairs of `s` from the last to the first:
/// where two pairs share a key, the first one wins.
pub open spec fn insert_all_rev<K, V>(m: Map<K, V>, s: Seq<(K, V)>) -> Map<K, V>
    decreases s.len(),
{
    if s.len() == 0 {
        m
    } else {
        insert_all_rev(m.insert(s.last().0, s.last().1), s.drop_last())
    }
}

/// Inserts every pair through a guard: how a map that is filled entry by
/// entry takes its initial contents.
pub fn fill_guard<K, V, S, G: WriteGuard<K, V, S>>(guard: &mut G, entries: Vec<(K, V)>)
    ensures
        final(guard).applies_writes() == old(guard).applies_writes(),
        old(guard).applies_writes() ==> final(guard).view() == insert_all_rev(
            old(guard).view(),
            entries@,
        ),
        final(guard).discards_writes() == old(guard).discards_writes(),
        old(guard).discards_writes() ==> final(guard).view() == old(guard).view(),
{
    let mut rest = entries;
    while rest.len() > 0
        invariant
            guard.applies_writes() == old(guard).applies_writes(),
            old(guard).applies_writes() ==> insert_all_rev(guard.view(), rest@) == insert_all_rev(
                old(guard).view(),
                entries@,
            ),
            guard.discards_writes() == old(guard).discards_writes(),
            old(guard).discards_writes() ==> guard.view() == old(guard).view(),
        decreases rest.len(),
    {
        let ghost before = rest@;
        match rest.pop() {
            Some((k, v)) => {
                guard.insert(k, v);
                assert(rest@ == before.drop_last());
            },
            None => {},
        }
    }
    proof {
        if old(guard).applies_writes() {
            assert(insert_all_rev(guard.view(), rest@) == guard.view());
        }
    }
}

/// On entries that take writes, an insert of a key is seen by the next read
/// of it, which passes, and a remove of a key leaves it absent.
pub proof fn lemma_read_after_write(m: Map<u64, u64>, key: u64)
    ensures
        apply_op(m, WriteOperation::Insert(key, expected_value(key))).contains_key(key),
        apply_op(m, WriteOperation::Insert(key, expected_value(key)))[key] == expected_value(key),
        read_passes(apply_op(m, WriteOperation::Insert(key, expected_value(key))), key),
        !apply_op(m, WriteOperation::Remove(key)).contains_key(key),
{
}

/// The share of the operation budget that each reader gets; what is left
/// over goes to nobody.
pub fn ops_per_reader(total_ops: usize, num_readers: usize) -> (r: usize)
    requires
        num_readers > 0,
    ensures
        r == total_ops / num_readers,
        r * num_readers <= total_ops,
{
    assert((total_ops / num_readers) * num_readers <= total_ops) by (nonlinear_arith)
        requires
            num_readers > 0,
    ;
    total_ops / num_readers
}

/// The operation budget that the readers share: whole shares only.
pub fn total_reader_ops(total_ops: usize, num_readers: usize) -> (r: usize)
    requires
        num_readers > 0,
    ensures
        r == (total_ops / num_readers) * num_readers,
        r <= total_ops,
{
    ops_per_reader(total_ops, num_readers) * num_readers
}

/// The keys that reader `reader` walks through, over and over: the range
/// `[start, start + len)`.
pub struct KeyCycle {
    start: u64,
    len: u64,
    pos: u64,
}

impl KeyCycle {
    pub closed spec fn wf(&self) -> bool {
        &&& 0 < self.len
        &&& self.pos < self.len
        &&& self.start + self.len <= MAX_KEY + 1
    }

    pub closed spec fn first(&self) -> u64 {
        self.start
    }

    pub closed spec fn length(&self) -> u64 {
        self.len
    }

    /// How far along the range the next key lies.
    pub closed spec fn position(&self) -> u64 {
        self.pos
    }

    /// The keys of reader `reader` when each reader gets `share` of them.
    pub fn new(reader: u64, share: u64) -> (r: Self)
        requires
            share > 0,
            (reader + 1) * share <= MAX_KEY + 1,
        ensures
            r.wf(),
            r.first() == reader * share,
            r.length() == share,
            r.position() == 0,
    {
        assert(reader * share + share == (reader + 1) * share) by (nonlinear_arith);
        KeyCycle { start: reader * share, len: share, pos: 0 }
    }

    /// The next key; after the last key of the range comes the first again.
    pub fn next(&mut self) -> (r: u64)
        requires
            old(self).wf(),
        ensures
            final(self).wf(),
            r == old(self).first() + old(self).position(),
            r <= MAX_KEY,
            final(self).first() == old(self).first(),
            final(self).length() == old(self).length(),
            final(self).position() == (old(self).position() + 1) % (old(self).length() as int),
    {
        let key = self.start + self.pos;
        let ghost len = self.len as int;
        if self.pos + 1 == self.len {
            assert(len % len == 0) by (nonlinear_arith)
                requires
                    len > 0,
            ;
            self.pos = 0;
        } else {
            let ghost p = self.pos as int + 1;
            assert(p % len == p) by (nonlinear_arith)
                requires
                    0 <= p < len,
            ;
            self.pos = self.pos + 1;
        }
        key
    }
}

/// Takes a guard, looks `key` up and tells whether the read passes.
pub fn read_once<S, H: ReadHandle<u64, u64, S>>(read: &H, key: u64) -> (r: bool)
    requires
        read.wf(),
        key <= MAX_KEY,
    ensures
        r == read_passes(read.view(), key),
{
    let expected = 2 * key;
    let guard = read.guard();
    let test = |v: &u64| -> (b: bool)
        ensures
            b == (*v == expected),
        { *v == expected };
    match guard.get_and_test(&key, test) {
        Some(b) => b,
        None => true,
    }
}

/// Reads every key of `[start, end)` once, each under its own guard, and
/// tells whether every read passed.
pub fn read_range<S, H: ReadHandle<u64, u64, S>>(read: &H, start: u64, end: u64) -> (r: bool)
    requires
        read.wf(),
        end <= MAX_KEY + 1,
    ensures
        r == (forall|k: u64| start <= k < end ==> read_passes(read.view(), k)),
{
    let mut key = start;
    while key < end
        invariant
            read.wf(),
            end <= MAX_KEY + 1,
            start <= key,
            forall|k: u64| start <= k < key ==> read_passes(read.view(), k),
        decreases end - key,
    {
        if !read_once(read, key) {
            assert(!read_passes(read.view(), key));
            return false;
        }
        key = key + 1;
    }
    true
}

/// Applies one write through a guard and returns what the guard reported.
pub fn apply_write<S, G: WriteGuard<u64, u64, S>>(guard: &mut G, op: WriteOperation) -> (r: bool)
    ensures
        final(guard).applies_writes() == old(guard).applies_writes(),
        old(guard).applies_writes() ==> {
            &&& final(guard).view() == apply_op(old(guard).view(), op)
            &&& r == op_outcome(old(guard).view(), op)
        },
        final(guard).discards_writes() == old(guard).discards_writes(),
        old(guard).discards_writes() ==> final(guard).view() == old(guard).view() && r,
{
    match op {
        WriteOperation::Insert(k, v) => guard.insert(k, v),
        WriteOperation::Update(k, v) => guard.update(k, v),
        WriteOperation::Remove(k) => guard.remove(k),
    }
}

/// Applies the writes in order, each under a guard of its own, and returns
/// what each reported. A handle that discards writes reports `true` for all.
pub fn drive_writer<S, H: WriteHandle<u64, u64, S>>(write: &mut H, writes: &Vec<WriteOperation>) -> (r:
    Vec<bool>)
    ensures
        r@.len() == writes@.len(),
        final(write).applies_writes() == old(write).applies_writes(),
        final(write).discards_writes() == old(write).discards_writes(),
        old(write).discards_writes() ==> forall|i: int| 0 <= i < r@.len() ==> #[trigger] r@[i],
{
    let mut outcomes: Vec<bool> = Vec::with_capacity(writes.len());
    let mut i: usize = 0;
    while i < writes.len()
        invariant
            0 <= i <= writes@.len(),
            outcomes@.len() == i,
            write.applies_writes() == old(write).applies_writes(),
            write.discards_writes() == old(write).discards_writes(),
            old(write).discards_writes() ==> forall|j: int|
                0 <= j < outcomes@.len() ==> #[trigger] outcomes@[j],
        decreases writes.len() - i,
    {
        let mut guard = write.guard();
        let outcome = apply_write(&mut guard, writes[i]);
        outcomes.push(outcome);
        i = i + 1;
    }
    outcomes
}

} // verus!

use rand::rngs::StdRng;
use rand::seq::SliceRandom;
use rand::SeedableRng;
use std::collections::HashMap;
use vstd::prelude::*;

verus! {

/// The largest key whose value and updated value fit in a `u64`.
pub const MAX_KEY: u64 = 0x7fff_ffff_ffff_ffff;

/// One write that the writer task applies.
#[derive(Clone, Copy, Debug, PartialEq, Eq, Structural)]
pub enum WriteOperation {
    Insert(u64, u64),
    Update(u64, u64),
    Remove(u64),
}

/// How many writes of each kind a run performs.
#[derive(Clone, Copy, Debug, PartialEq, Eq, Structural)]
pub struct WritePlan {
    pub total: usize,
    pub updates: usize,
    pub removes: usize,
    pub inserts: usize,
}

/// A configuration that cannot be run.
#[derive(Clone, Copy, Debug, PartialEq, Eq, Structural)]
pub enum ConfigError {
    /// The run would write at least as many keys as the map holds.
    TooManyWrites { writes: u128, keys: usize },
}

/// The writes of a run, the keys it draws on and the map it starts from.
pub struct Workload {
    pub plan: WritePlan,
    pub keys: Vec<u64>,
    pub initial: HashMap<u64, u64>,
    pub writes: Vec<WriteOperation>,
}

/// The value that a key holds in the initial map and after an insert.
pub open spec fn expected_value(k: u64) -> u64 {
    (2 * k) as u64
}

/// The value that an update writes.
pub open spec fn updated_value(k: u64) -> u64 {
    (2 * k + 1) as u64
}

/// Writes performed in a run of `run_time_ms` milliseconds.
pub open spec fn total_writes(writes_per_second: usize, run_time_ms: usize) -> int {
    (writes_per_second as int * run_time_ms as int) / 1000
}

/// The split of `total` writes: half updates, a quarter removes, the rest inserts.
pub open spec fn plan_of(total: usize) -> WritePlan {
    WritePlan {
        total,
        updates: total / 2,
        removes: total / 4,
        inserts: (total - total / 2 - total / 4) as usize,
    }
}

/// The key that an operation targets.
pub open spec fn target_of(op: WriteOperation) -> u64 {
    match op {
        WriteOperation::Insert(k, _) => k,
        WriteOperation::Update(k, _) => k,
        WriteOperation::Remove(k) => k,
    }
}

/// How many keys start in the map: all but those held back for inserts.
pub open spec fn held_keys(keys: Seq<u64>, plan: WritePlan) -> int {
    keys.len() - plan.inserts
}

/// The initial map: each of the first `held` keys maps to twice itself.
pub open spec fn initial_map(keys: Seq<u64>, held: int) -> Map<u64, u64> {
    Map::new(|k: u64| keys.take(held).contains(k), |k: u64| expected_value(k))
}

/// The writes before shuffling: removes of the first keys, updates of the
/// next ones, and inserts of the keys held back at the end.
pub open spec fn planned_ops(keys: Seq<u64>, plan: WritePlan) -> Seq<WriteOperation> {
    let held = held_keys(keys, plan);
    Seq::new(
        plan.total as nat,
        |i: int|
            if i < plan.removes {
                WriteOperation::Remove(keys[i])
            } else if i < plan.removes + plan.updates {
                WriteOperation::Update(keys[i], updated_value(keys[i]))
            } else {
                let k = keys[held + i - plan.removes - plan.updates];
                WriteOperation::Insert(k, expected_value(k))
            },
    )
}

/// The operation targets a key of the initial map exactly when it is a
/// remove or an update, and it writes the value that its kind calls for.
pub open spec fn fits_initial(op: WriteOperation, initial: Map<u64, u64>) -> bool {
    match op {
        WriteOperation::Insert(k, v) => !initial.contains_key(k) && v == expected_value(k),
        WriteOperation::Update(k, v) => initial.contains_key(k) && v == updated_value(k),
        WriteOperation::Remove(k) => initial.contains_key(k),
    }
}

/// Keys that a key space of `size` can hold.
pub open spec fn keys_in_space(keys: Seq<u64>, size: int) -> bool {
    forall|i: int| 0 <= i < keys.len() ==> #[trigger] keys[i] < size
}

/// Splits the writes of a run into kinds. A run that would write at least
/// as many keys as the map holds is refused.
pub fn plan_writes(writes_per_second: usize, run_time_ms: usize, num_keys: usize) -> (r: Result<
    WritePlan,
    ConfigError,
>)
    ensures
        r is Ok <==> total_writes(writes_per_second, run_time_ms) < num_keys,
        r matches Ok(plan) ==> plan == plan_of(total_writes(writes_per_second, run_time_ms) as usize),
        r matches Err(e) ==> e == (ConfigError::TooManyWrites {
            writes: total_writes(writes_per_second, run_time_ms) as u128,
            keys: num_keys,
        }),
{
    let a = writes_per_second as u128;
    let b = run_time_ms as u128;
    assert(a * b <= u128::MAX) by (nonlinear_arith)
        requires
            a <= u64::MAX,
            b <= u64::MAX,
    ;
    let product = a * b;
    let writes = product / 1000;
    if writes >= num_keys as u128 {
        return Err(ConfigError::TooManyWrites { writes, keys: num_keys });
    }
    let total = writes as usize;
    let updates = total / 2;
    let removes = total / 4;
    let inserts = total - updates - removes;
    Ok(WritePlan { total, updates, removes, inserts })
}

/// The seeded generator of `rand`, carried through as an opaque value.
#[verifier::external_type_specification]
#[verifier::external_body]
pub struct ExStdRng(StdRng);

/// Relies on `rand::seq::index::sample`: `amount` distinct indices below
/// `length`, in random order. It panics when `amount > length`.
#[verifier::external_body]
fn sample_keys(rng: &mut StdRng, length: usize, amount: usize) -> (r: Vec<u64>)
    requires
        amount <= length,
    ensures
        r@.len() == amount,
        r@.no_duplicates(),
        keys_in_space(r@, length as int),
{
    rand::seq::index::sample(rng, length, amount).into_iter().map(|i| i as u64).collect()
}

/// Relies on `SliceRandom::shuffle`: the writes come back in another order,
/// none added or lost.
#[verifier::external_body]
fn shuffle_writes(rng: &mut StdRng, writes: &mut Vec<WriteOperation>)
    ensures
        final(writes)@.to_multiset() == old(writes)@.to_multiset(),
{
    writes.shuffle(rng)
}

/// Relies on `SeedableRng::seed_from_u64`: a generator seeded with `seed`.
#[verifier::external_body]
fn seeded_rng(seed: u64) -> (r: StdRng) {
    StdRng::seed_from_u64(seed)
}

/// Builds the initial map and the unshuffled writes from distinct keys.
pub fn build_workload(keys: &Vec<u64>, plan: WritePlan) -> (r: (HashMap<u64, u64>, Vec<
    WriteOperation,
>))
    requires
        keys@.no_duplicates(),
        plan == plan_of(plan.total),
        plan.total < keys@.len(),
        keys_in_space(keys@, MAX_KEY as int + 1),
    ensures
        r.0@ == initial_map(keys@, held_keys(keys@, plan)),
        r.1@ == planned_ops(keys@, plan),
{
    broadcast use vstd::std_specs::hash::group_hash_axioms;

    let ghost planned = planned_ops(keys@, plan);
    let held = keys.len() - plan.inserts;
    let changes = plan.removes + plan.updates;
    let mut map: HashMap<u64, u64> = HashMap::with_capacity(keys.len());
    let mut writes: Vec<WriteOperation> = Vec::with_capacity(plan.total);
    let mut i: usize = 0;
    while i < held
        invariant
            held == held_keys(keys@, plan),
            changes == plan.removes + plan.updates,
            changes <= held,
            held <= keys@.len(),
            plan == plan_of(plan.total),
            plan.total < keys@.len(),
            keys_in_space(keys@, MAX_KEY as int + 1),
            planned == planned_ops(keys@, plan),
            0 <= i <= held,
            writes@ == planned.take(if i < changes { i as int } else { changes as int }),
            map@ == initial_map(keys@, i as int),
        decreases held - i,
    {
        let k = keys[i];
        assert(k <= MAX_KEY);
        if writes.len() < plan.removes {
            writes.push(WriteOperation::Remove(k));
        } else if writes.len() < changes {
            writes.push(WriteOperation::Update(k, 2 * k + 1));
        }
        map.insert(k, 2 * k);
        proof {
            let lim = if i + 1 < changes { i + 1 } else { changes as int };
            assert(writes@ =~= planned.take(lim));
            assert(keys@.take(i + 1) =~= keys@.take(i as int).push(k));
            assert(map@ =~= initial_map(keys@, i + 1)) by {
                assert forall|x: u64| #[trigger] keys@.take(i + 1).contains(x) <==> (keys@.take(
                    i as int,
                ).contains(x) || x == k) by {
                    if keys@.take(i + 1).contains(x) && x != k {
                        let j = choose|j: int| 0 <= j < i + 1 && #[trigger] keys@.take(i + 1)[j] == x;
                        assert(keys@.take(i as int)[j] == x);
                    }
                    if x == k {
                        assert(keys@.take(i + 1)[i as int] == x);
                    }
                    if keys@.take(i as int).contains(x) {
                        let j = choose|j: int| 0 <= j < i && #[trigger] keys@.take(i as int)[j] == x;
                        assert(keys@.take(i + 1)[j] == x);
                    }
                }
            }
        }
        i = i + 1;
    }
    let mut j: usize = held;
    while j < keys.len()
        invariant
            held == held_keys(keys@, plan),
            changes == plan.removes + plan.updates,
            changes <= held,
            held <= j <= keys@.len(),
            plan == plan_of(plan.total),
            plan.total < keys@.len(),
            keys_in_space(keys@, MAX_KEY as int + 1),
            planned == planned_ops(keys@, plan),
            writes@ == planned.take(changes + j - held),
            map@ == initial_map(keys@, held as int),
        decreases keys.len() - j,
    {
        let k = keys[j];
        assert(k <= MAX_KEY);
        writes.push(WriteOperation::Insert(k, 2 * k));
        assert(writes@ =~= planned.take(changes + j + 1 - held));
        j = j + 1;
    }
    assert(writes@ =~= planned);
    (map, writes)
}

/// How many removes, updates and inserts a list of writes holds.
pub open spec fn count_removes(s: Seq<WriteOperation>) -> nat {
    s.filter(|o: WriteOperation| o is Remove).len()
}

pub open spec fn count_updates(s: Seq<WriteOperation>) -> nat {
    s.filter(|o: WriteOperation| o is Update).len()
}

pub open spec fn count_inserts(s: Seq<WriteOperation>) -> nat {
    s.filter(|o: WriteOperation| o is Insert).len()
}

/// Two lists that hold the same writes, in any order, have as many that
/// meet `p`.
proof fn lemma_filter_len_permutation(
    a: Seq<WriteOperation>,
    b: Seq<WriteOperation>,
    p: spec_fn(WriteOperation) -> bool,
)
    requires
        a.to_multiset() == b.to_multiset(),
    ensures
        a.filter(p).len() == b.filter(p).len(),
    decreases a.len(),
{
    broadcast use vstd::seq_lib::to_multiset_len;
    broadcast use vstd::multiset::group_multiset_axioms;

    vstd::seq_lib::to_multiset_len(a);
    vstd::seq_lib::to_multiset_len(b);
    if a.len() == 0 {
        broadcast use vstd::seq_lib::group_filter_ensures;

        assert(b.len() == 0);
        assert(a.filter(p).len() <= a.len());
        assert(b.filter(p).len() <= b.len());
    } else {
        let x = a.last();
        let a1 = a.drop_last();
        assert(a =~= a1.push(x));
        vstd::seq_lib::to_multiset_build(a1, x);
        a.to_multiset_ensures();
        b.to_multiset_ensures();
        assert(a.contains(x)) by {
            assert(a[a.len() - 1] == x);
        }
        assert(a.to_multiset().count(x) > 0);
        assert(b.to_multiset().count(x) > 0);
        assert(b.contains(x));
        let j = choose|j: int| 0 <= j < b.len() && b[j] == x;
        let b1 = b.remove(j);
        vstd::seq_lib::to_multiset_remove(b, j);
        assert(a1.to_multiset() =~= b1.to_multiset());
        lemma_filter_len_permutation(a1, b1, p);
        a1.lemma_filter_len_push(p, x);
        let head = b.take(j);
        let tail = b.skip(j + 1);
        assert(b =~= head.push(x) + tail);
        assert(b1 =~= head + tail);
        Seq::filter_distributes_over_add(head.push(x), tail, p);
        Seq::filter_distributes_over_add(head, tail, p);
        head.lemma_filter_len_push(p, x);
    }
}

/// The number of writes among the first `i` planned ones that meet `p`,
/// when `p` holds exactly on the positions `[lo, hi)`.
proof fn lemma_planned_prefix_count(
    ops: Seq<WriteOperation>,
    p: spec_fn(WriteOperation) -> bool,
    lo: int,
    hi: int,
    i: int,
)
    requires
        0 <= lo <= hi <= ops.len(),
        0 <= i <= ops.len(),
        forall|k: int| 0 <= k < ops.len() ==> (p(#[trigger] ops[k]) <==> lo <= k < hi),
    ensures
        ops.take(i).filter(p).len() == if i <= lo {
            0
        } else if i <= hi {
            i - lo
        } else {
            hi - lo
        },
    decreases i,
{
    if i == 0 {
        assert(ops.take(0) =~= Seq::<WriteOperation>::empty());
        assert(ops.take(0).filter(p) =~= Seq::<WriteOperation>::empty()) by {
            reveal(Seq::filter);
        }
    } else {
        lemma_planned_prefix_count(ops, p, lo, hi, i - 1);
        assert(ops.take(i) =~= ops.take(i - 1).push(ops[i - 1]));
        ops.take(i - 1).lemma_filter_len_push(p, ops[i - 1]);
    }
}

/// The writes hold as many removes, updates and inserts as the plan asks,
/// in whatever order they were shuffled into.
pub proof fn lemma_write_counts(keys: Seq<u64>, plan: WritePlan, writes: Seq<WriteOperation>)
    requires
        keys.no_duplicates(),
        plan == plan_of(plan.total),
        plan.total < keys.len(),
        writes.to_multiset() == planned_ops(keys, plan).to_multiset(),
    ensures
        writes.len() == plan.total,
        count_removes(writes) == plan.removes,
        count_updates(writes) == plan.updates,
        count_inserts(writes) == plan.inserts,
{
    let ops = planned_ops(keys, plan);
    lemma_planned_ops_shape(keys, plan);
    lemma_shuffled_writes_fit(keys, plan, writes);
    let n = ops.len() as int;
    assert(ops.take(n) =~= ops);
    let pr = |o: WriteOperation| o is Remove;
    let pu = |o: WriteOperation| o is Update;
    let pi = |o: WriteOperation| o is Insert;
    let r = plan.removes as int;
    let u = plan.updates as int;
    assert forall|k: int| 0 <= k < ops.len() implies (pr(#[trigger] ops[k]) <==> 0 <= k < r) by {}
    assert forall|k: int| 0 <= k < ops.len() implies (pu(#[trigger] ops[k]) <==> r <= k < r + u) by {}
    assert forall|k: int| 0 <= k < ops.len() implies (pi(#[trigger] ops[k]) <==> r + u <= k < n) by {}
    lemma_planned_prefix_count(ops, pr, 0, r, n);
    lemma_planned_prefix_count(ops, pu, r, r + u, n);
    lemma_planned_prefix_count(ops, pi, r + u, n, n);
    lemma_filter_len_permutation(writes, ops, pr);
    lemma_filter_len_permutation(writes, ops, pu);
    lemma_filter_len_permutation(writes, ops, pi);
}

/// Plans, draws and shuffles the writes of a run. `num_keys` distinct keys
/// are drawn below `key_space` from a generator seeded with `seed`; a run
/// that would write at least `num_keys` keys is refused before anything is
/// drawn.
pub fn generate_workload(
    seed: u64,
    writes_per_second: usize,
    run_time_ms: usize,
    num_keys: usize,
    key_space: usize,
) -> (r: Result<Workload, ConfigError>)
    requires
        num_keys <= key_space,
        key_space <= MAX_KEY as int + 1,
    ensures
        r is Ok <==> total_writes(writes_per_second, run_time_ms) < num_keys,
        r matches Err(e) ==> e == (ConfigError::TooManyWrites {
            writes: total_writes(writes_per_second, run_time_ms) as u128,
            keys: num_keys,
        }),
        r matches Ok(w) ==> {
            &&& w.plan == plan_of(total_writes(writes_per_second, run_time_ms) as usize)
            &&& w.keys@.len() == num_keys
            &&& w.keys@.no_duplicates()
            &&& keys_in_space(w.keys@, key_space as int)
            &&& w.initial@ == initial_map(w.keys@, held_keys(w.keys@, w.plan))
            &&& w.writes@.to_multiset() == planned_ops(w.keys@, w.plan).to_multiset()
            &&& w.writes@.len() == w.plan.total
            &&& count_updates(w.writes@) == w.plan.updates
            &&& count_removes(w.writes@) == w.plan.removes
            &&& count_inserts(w.writes@) == w.plan.inserts
            &&& forall|i: int|
                0 <= i < w.writes@.len() ==> fits_initial(#[trigger] w.writes@[i], w.initial@)
        },
{
    let plan = match plan_writes(writes_per_second, run_time_ms, num_keys) {
        Ok(plan) => plan,
        Err(e) => return Err(e),
    };
    let mut rng = seeded_rng(seed);
    let keys = sample_keys(&mut rng, key_space, num_keys);
    assert forall|i: int| 0 <= i < keys@.len() implies #[trigger] keys@[i] < MAX_KEY as int + 1 by {
        assert(keys@[i] < key_space);
    }
    let (initial, mut writes) = build_workload(&keys, plan);
    shuffle_writes(&mut rng, &mut writes);
    proof {
        lemma_write_counts(keys@, plan, writes@);
        lemma_shuffled_writes_fit(keys@, plan, writes@);
    }
    Ok(Workload { plan, keys, initial, writes })
}

/// The writes before shuffling: removes first, then updates, then inserts,
/// in the counts of the plan; removes and updates target keys of the initial
/// map, inserts target keys outside it; and no two writes share a key.
pub proof fn lemma_planned_ops_shape(keys: Seq<u64>, plan: WritePlan)
    requires
        keys.no_duplicates(),
        plan == plan_of(plan.total),
        plan.total < keys.len(),
    ensures
        plan.updates + plan.removes + plan.inserts == plan.total,
        planned_ops(keys, plan).len() == plan.total,
        forall|i: int|
            0 <= i < plan.total ==> {
                &&& (#[trigger] planned_ops(keys, plan)[i] is Remove <==> i < plan.removes)
                &&& (planned_ops(keys, plan)[i] is Update <==> plan.removes <= i < plan.removes
                    + plan.updates)
                &&& (planned_ops(keys, plan)[i] is Insert <==> plan.removes + plan.updates <= i)
                &&& fits_initial(
                    planned_ops(keys, plan)[i],
                    initial_map(keys, held_keys(keys, plan)),
                )
            },
        forall|i: int, j: int|
            0 <= i < j < plan.total ==> target_of(#[trigger] planned_ops(keys, plan)[i])
                != target_of(#[trigger] planned_ops(keys, plan)[j]),
{
    let ops = planned_ops(keys, plan);
    let held = held_keys(keys, plan);
    let init = initial_map(keys, held);
    let changes = plan.removes + plan.updates;
    // Position in `keys` of the key that operation `i` targets.
    let pos = |i: int| if i < changes { i } else { held + i - changes };
    assert forall|i: int| 0 <= i < plan.total implies target_of(#[trigger] ops[i]) == keys[pos(i)]
        && 0 <= pos(i) < keys.len() && (pos(i) < held <==> i < changes) by {}
    assert forall|i: int| 0 <= i < plan.total implies fits_initial(#[trigger] ops[i], init) by {
        let k = keys[pos(i)];
        if i < changes {
            assert(keys.take(held)[i] == k);
        } else {
            if keys.take(held).contains(k) {
                let j = choose|j: int| 0 <= j < held && #[trigger] keys.take(held)[j] == k;
                assert(keys[j] == keys[pos(i)]);
            }
        }
    }
    assert forall|i: int, j: int| 0 <= i < j < plan.total implies target_of(#[trigger] ops[i])
        != target_of(#[trigger] ops[j]) by {
        assert(pos(i) != pos(j));
    }
}

/// Shuffling keeps what matters of the writes: there are as many, removes
/// and updates still target keys of the initial map, inserts still target
/// keys outside it.
pub proof fn lemma_shuffled_writes_fit(keys: Seq<u64>, plan: WritePlan, writes: Seq<WriteOperation>)
    requires
        keys.no_duplicates(),
        plan == plan_of(plan.total),
        plan.total < keys.len(),
        writes.to_multiset() == planned_ops(keys, plan).to_multiset(),
    ensures
        writes.len() == plan.total,
        forall|i: int|
            0 <= i < writes.len() ==> fits_initial(
                #[trigger] writes[i],
                initial_map(keys, held_keys(keys, plan)),
            ),
{
    let ops = planned_ops(keys, plan);
    lemma_planned_ops_shape(keys, plan);
    writes.to_multiset_ensures();
    ops.to_multiset_ensures();
    assert forall|i: int| 0 <= i < writes.len() implies fits_initial(
        #[trigger] writes[i],
        initial_map(keys, held_keys(keys, plan)),
    ) by {
        assert(writes.contains(writes[i]));
        assert(writes.to_multiset().count(writes[i]) > 0);
        assert(ops.to_multiset().count(writes[i]) > 0);
        assert(ops.contains(writes[i]));
        let j = choose|j: int| 0 <= j < ops.len() && #[trigger] ops[j] == writes[i];
        assert(fits_initial(ops[j], initial_map(keys, held_keys(keys, plan))));
    }
}

} // verus!

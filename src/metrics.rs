use vstd::prelude::*;

verus! {

/// Nanoseconds in one second.
pub const NANOS_PER_SEC: u128 = 1_000_000_000;

/// What one task measured: its start and end, in nanoseconds from an
/// origin shared by all tasks of a run, and how many operations it made.
#[derive(Clone, Copy, Debug, PartialEq, Eq)]
pub struct ExecutionWindow {
    pub start: u64,
    pub end: u64,
    pub operations: usize,
}

/// Elapsed nanoseconds of a window.
pub open spec fn elapsed_of(w: ExecutionWindow) -> int {
    w.end - w.start
}

/// Operations of a window.
pub open spec fn operations_of(w: ExecutionWindow) -> int {
    w.operations as int
}

/// Operations per second of a window, rounded down.
pub open spec fn throughput_of(w: ExecutionWindow) -> int {
    (w.operations as int * NANOS_PER_SEC as int) / (w.end - w.start)
}

/// A window whose end lies after its start.
pub open spec fn valid_window(w: ExecutionWindow) -> bool {
    w.start < w.end
}

pub open spec fn all_valid(ws: Seq<ExecutionWindow>) -> bool {
    forall|i: int| 0 <= i < ws.len() ==> valid_window(#[trigger] ws[i])
}

/// The sum of `f` over the windows.
pub open spec fn sum_of(ws: Seq<ExecutionWindow>, f: spec_fn(ExecutionWindow) -> int) -> int
    decreases ws.len(),
{
    if ws.len() == 0 {
        0
    } else {
        sum_of(ws.drop_last(), f) + f(ws.last())
    }
}

pub open spec fn total_throughput(ws: Seq<ExecutionWindow>) -> int {
    sum_of(ws, |w: ExecutionWindow| throughput_of(w))
}

pub open spec fn total_elapsed(ws: Seq<ExecutionWindow>) -> int {
    sum_of(ws, |w: ExecutionWindow| elapsed_of(w))
}

pub open spec fn total_operations(ws: Seq<ExecutionWindow>) -> int {
    sum_of(ws, |w: ExecutionWindow| operations_of(w))
}

/// Mean latency of one operation over a pool of tasks: all time over all operations.
pub open spec fn mean_latency(ws: Seq<ExecutionWindow>) -> int {
    total_elapsed(ws) / total_operations(ws)
}

/// Summing over two lists of windows one after the other is summing over both.
pub proof fn lemma_sum_of_concat(
    a: Seq<ExecutionWindow>,
    b: Seq<ExecutionWindow>,
    f: spec_fn(ExecutionWindow) -> int,
)
    ensures
        sum_of(a + b, f) == sum_of(a, f) + sum_of(b, f),
    decreases b.len(),
{
    if b.len() == 0 {
        assert(a + b =~= a);
    } else {
        assert((a + b).drop_last() =~= a + b.drop_last());
        lemma_sum_of_concat(a, b.drop_last(), f);
    }
}

/// A sum of values that are each at least zero and at most `bound` lies
/// between zero and `bound` times the count.
proof fn lemma_sum_of_bounded(ws: Seq<ExecutionWindow>, f: spec_fn(ExecutionWindow) -> int, bound: int)
    requires
        forall|i: int| 0 <= i < ws.len() ==> 0 <= #[trigger] f(ws[i]) <= bound,
    ensures
        0 <= sum_of(ws, f) <= bound * ws.len(),
    decreases ws.len(),
{
    if ws.len() > 0 {
        assert forall|i: int| 0 <= i < ws.drop_last().len() implies 0 <= #[trigger] f(
            ws.drop_last()[i],
        ) <= bound by {
            assert(ws.drop_last()[i] == ws[i]);
        }
        lemma_sum_of_bounded(ws.drop_last(), f, bound);
        assert(bound * (ws.len() - 1) + bound == bound * ws.len()) by (nonlinear_arith);
    }
}

/// A sum of values that are each at least zero grows with the prefix taken.
proof fn lemma_sum_of_prefix(ws: Seq<ExecutionWindow>, f: spec_fn(ExecutionWindow) -> int, i: int)
    requires
        0 <= i <= ws.len(),
        forall|j: int| 0 <= j < ws.len() ==> 0 <= #[trigger] f(ws[j]),
    ensures
        sum_of(ws.take(i), f) <= sum_of(ws, f),
{
    let rest = ws.skip(i);
    assert(ws.take(i) + rest =~= ws);
    lemma_sum_of_concat(ws.take(i), rest, f);
    assert forall|j: int| 0 <= j < rest.len() implies 0 <= #[trigger] f(rest[j]) <= f(rest[j]) by {
        assert(rest[j] == ws[j + i]);
    }
    lemma_sum_of_nonneg(rest, f);
}

proof fn lemma_sum_of_nonneg(ws: Seq<ExecutionWindow>, f: spec_fn(ExecutionWindow) -> int)
    requires
        forall|j: int| 0 <= j < ws.len() ==> 0 <= #[trigger] f(ws[j]),
    ensures
        0 <= sum_of(ws, f),
    decreases ws.len(),
{
    if ws.len() > 0 {
        assert forall|j: int| 0 <= j < ws.drop_last().len() implies 0 <= #[trigger] f(
            ws.drop_last()[j],
        ) by {
            assert(ws.drop_last()[j] == ws[j]);
        }
        lemma_sum_of_nonneg(ws.drop_last(), f);
    }
}

/// Throughput adds up over tasks that run side by side: the aggregate of
/// two pools of windows is the aggregate of the first plus that of the second.
pub proof fn lemma_throughput_additive(a: Seq<ExecutionWindow>, b: Seq<ExecutionWindow>)
    ensures
        total_throughput(a + b) == total_throughput(a) + total_throughput(b),
{
    lemma_sum_of_concat(a, b, |w: ExecutionWindow| throughput_of(w));
}

/// Mean latency is a ratio of sums: two pools with the same total time and
/// the same total operations have the same mean latency, however the
/// operations are spread over their tasks; and joining two pools adds their
/// times and their operations.
pub proof fn lemma_latency_ratio_of_sums(a: Seq<ExecutionWindow>, b: Seq<ExecutionWindow>)
    ensures
        total_elapsed(a) == total_elapsed(b) && total_operations(a) == total_operations(b)
            ==> mean_latency(a) == mean_latency(b),
        mean_latency(a + b) == (total_elapsed(a) + total_elapsed(b)) / (total_operations(a)
            + total_operations(b)),
{
    lemma_sum_of_concat(a, b, |w: ExecutionWindow| elapsed_of(w));
    lemma_sum_of_concat(a, b, |w: ExecutionWindow| operations_of(w));
}

impl ExecutionWindow {
    /// Nanoseconds between start and end.
    pub fn time_elapsed(&self) -> (r: u64)
        requires
            self.start <= self.end,
        ensures
            r == elapsed_of(*self),
    {
        self.end - self.start
    }

    /// Operations per second, rounded down.
    pub fn throughput(&self) -> (r: u64)
        requires
            valid_window(*self),
            throughput_of(*self) <= u64::MAX,
        ensures
            r == throughput_of(*self),
    {
        let nanos = self.time_elapsed() as u128;
        let operations = self.operations as u128;
        assert(operations * NANOS_PER_SEC <= u128::MAX) by (nonlinear_arith)
            requires
                operations <= u64::MAX,
        ;
        let scaled = operations * NANOS_PER_SEC;
        (scaled / nanos) as u64
    }
}

/// Aggregate throughput of tasks that ran side by side: the sum of theirs.
pub fn aggregate_throughput(windows: &Vec<ExecutionWindow>) -> (r: u64)
    requires
        all_valid(windows@),
        total_throughput(windows@) <= u64::MAX,
    ensures
        r == total_throughput(windows@),
{
    let ghost f = |w: ExecutionWindow| throughput_of(w);
    proof {
        assert forall|j: int| 0 <= j < windows@.len() implies 0 <= #[trigger] f(windows@[j]) by {
            let w = windows@[j];
            assert(w.operations as int * NANOS_PER_SEC as int >= 0) by (nonlinear_arith)
                requires
                    w.operations >= 0,
            ;
        }
    }
    let mut sum: u64 = 0;
    let mut i: usize = 0;
    while i < windows.len()
        invariant
            0 <= i <= windows@.len(),
            all_valid(windows@),
            total_throughput(windows@) <= u64::MAX,
            f == (|w: ExecutionWindow| throughput_of(w)),
            forall|j: int| 0 <= j < windows@.len() ==> 0 <= #[trigger] f(windows@[j]),
            sum == sum_of(windows@.take(i as int), f),
        decreases windows.len() - i,
    {
        let w = windows[i];
        proof {
            assert(windows@.take(i as int + 1).drop_last() =~= windows@.take(i as int));
            lemma_sum_of_prefix(windows@, f, i as int + 1);
            lemma_sum_of_nonneg(windows@.take(i as int), f);
        }
        sum = sum + w.throughput();
        i = i + 1;
    }
    assert(windows@.take(i as int) =~= windows@);
    sum
}

/// Aggregate throughput, or `None` when it does not fit in a `u64`.
pub fn try_aggregate_throughput(windows: &Vec<ExecutionWindow>) -> (r: Option<u64>)
    requires
        all_valid(windows@),
    ensures
        r is Some <==> total_throughput(windows@) <= u64::MAX,
        r matches Some(t) ==> t == total_throughput(windows@),
{
    let ghost f = |w: ExecutionWindow| throughput_of(w);
    proof {
        assert forall|j: int| 0 <= j < windows@.len() implies 0 <= #[trigger] f(windows@[j]) by {
            let w = windows@[j];
            assert(w.operations as int * NANOS_PER_SEC as int >= 0) by (nonlinear_arith)
                requires
                    w.operations >= 0,
            ;
        }
    }
    let mut sum: u64 = 0;
    let mut i: usize = 0;
    while i < windows.len()
        invariant
            0 <= i <= windows@.len(),
            all_valid(windows@),
            f == (|w: ExecutionWindow| throughput_of(w)),
            forall|j: int| 0 <= j < windows@.len() ==> 0 <= #[trigger] f(windows@[j]),
            sum == sum_of(windows@.take(i as int), f),
        decreases windows.len() - i,
    {
        let w = windows[i];
        let nanos = w.time_elapsed() as u128;
        let operations = w.operations as u128;
        assert(operations * NANOS_PER_SEC <= u128::MAX) by (nonlinear_arith)
            requires
                operations <= u64::MAX,
        ;
        let t = (operations * NANOS_PER_SEC) / nanos;
        proof {
            assert(windows@.take(i as int + 1).drop_last() =~= windows@.take(i as int));
            lemma_sum_of_prefix(windows@, f, i as int + 1);
        }
        if t > (u64::MAX - sum) as u128 {
            return None;
        }
        sum = sum + t as u64;
        i = i + 1;
    }
    assert(windows@.take(i as int) =~= windows@);
    Some(sum)
}

/// Mean latency of one operation, in nanoseconds, over all the tasks.
pub fn average_latency(windows: &Vec<ExecutionWindow>) -> (r: u128)
    requires
        all_valid(windows@),
        total_operations(windows@) > 0,
    ensures
        r == mean_latency(windows@),
{
    let ghost fe = |w: ExecutionWindow| elapsed_of(w);
    let ghost fo = |w: ExecutionWindow| operations_of(w);
    let mut time: u128 = 0;
    let mut operations: u128 = 0;
    let mut i: usize = 0;
    while i < windows.len()
        invariant
            0 <= i <= windows@.len(),
            all_valid(windows@),
            fe == (|w: ExecutionWindow| elapsed_of(w)),
            fo == (|w: ExecutionWindow| operations_of(w)),
            time == sum_of(windows@.take(i as int), fe),
            operations == sum_of(windows@.take(i as int), fo),
        decreases windows.len() - i,
    {
        let w = windows[i];
        let ghost pre = windows@.take(i as int);
        proof {
            assert(windows@.take(i as int + 1).drop_last() =~= pre);
            assert forall|j: int| 0 <= j < pre.len() implies 0 <= #[trigger] fe(pre[j]) <= u64::MAX
                && 0 <= fo(pre[j]) <= u64::MAX by {
                assert(pre[j] == windows@[j]);
            }
            lemma_sum_of_bounded(pre, fe, u64::MAX as int);
            lemma_sum_of_bounded(pre, fo, u64::MAX as int);
            assert(u64::MAX as int * pre.len() + u64::MAX <= u128::MAX) by (nonlinear_arith)
                requires
                    pre.len() <= u64::MAX,
            ;
        }
        time = time + w.time_elapsed() as u128;
        operations = operations + w.operations as u128;
        i = i + 1;
    }
    assert(windows@.take(i as int) =~= windows@);
    time / operations
}

} // verus!

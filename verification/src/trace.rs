//! Traces of orchestration runs.

use vstd::prelude::*;

use crate::task::TaskStatus;
use crate::time::{earlier, elapsed_nanos, lemma_earlier_all, truncated, Timestamp};
use crate::uuid::Uuid;

verus! {

/// Why an orchestration run ended.
#[derive(Debug, Clone, Copy, PartialEq, Eq, Structural)]
pub enum TerminationReason {
    /// All subtasks completed successfully.
    Completed,
    /// Some subtasks failed but the run wasn't cancelled.
    PartialFailure,
    /// Task-level timeout fired.
    Timeout,
    /// Budget limit was exceeded.
    BudgetExceeded,
    /// Explicitly cancelled (token fired for other reasons).
    Cancelled,
}

/// A trace span representing the execution of a single subtask.
#[derive(Debug, Clone)]
pub struct TraceSpan {
    /// Task ID in the store.
    pub task_id: Uuid,
    /// Title of the subtask.
    pub title: String,
    /// Execution order group.
    pub order: u32,
    /// Final status.
    pub status: TaskStatus,
    /// When the subtask was dispatched.
    pub dispatched_at: Option<Timestamp>,
    /// When the subtask completed.
    pub completed_at: Option<Timestamp>,
    /// Wall-clock duration (`completed_at` - `dispatched_at`) in ms.
    pub wall_clock_ms: Option<u64>,
    /// Model latency reported by the harness (ms).
    pub model_latency_ms: Option<u64>,
    /// Tool latency reported by the harness (ms).
    pub tool_latency_ms: Option<u64>,
    /// Total latency reported by the harness (ms).
    pub total_latency_ms: Option<u64>,
    /// Overhead: `wall_clock_ms` - `total_latency_ms` (IPC, scheduling, etc).
    pub overhead_ms: Option<i64>,
    /// Number of retries before this result.
    pub retries: u32,
    /// Gaps/anomalies detected for this span.
    pub gaps: Vec<TraceGap>,
}

/// A gap or anomaly detected in the trace data.
#[derive(Debug, Clone, Copy, PartialEq, Eq, Structural)]
pub enum TraceGap {
    /// Harness did not report latency fields.
    MissingHarnessLatency,
    /// Orchestrator timestamps (`dispatched_at` / `completed_at`) are missing.
    MissingTimestamps,
    /// Overhead is negative (harness reported more latency than wall clock).
    NegativeOverhead { overhead_ms: i64 },
    /// Gap between the end of one order group and the start of the next.
    InterGroupGap { from_order: u32, to_order: u32, gap_ms: u64 },
    /// `model_latency` + `tool_latency` != `total_latency` (> 10% delta).
    LatencyMismatch { model_ms: u64, tool_ms: u64, total_ms: u64 },
}

/// Timeline for an entire orchestration run.
#[derive(Debug, Clone)]
pub struct TaskTimeline {
    /// Parent task ID.
    pub parent_task_id: Uuid,
    /// Per-subtask spans, in the order they appear in the outcome.
    pub spans: Vec<TraceSpan>,
    /// Total wall-clock duration of the orchestration run (ms).
    pub total_wall_clock_ms: u64,
    /// Why the orchestration run ended.
    pub termination_reason: TerminationReason,
    /// Top-level gaps (e.g., inter-group gaps).
    pub gaps: Vec<TraceGap>,
}

/// The earliest dispatch among the first `n` spans that belong to the group.
pub open spec fn earliest_dispatch(spans: Seq<TraceSpan>, order: u32, n: nat) -> Option<Timestamp>
    decreases n,
{
    if n == 0 {
        None
    } else {
        let before = earliest_dispatch(spans, order, (n - 1) as nat);
        let span = spans[n - 1];
        match (before, span.dispatched_at) {
            (Some(b), Some(d)) => if span.order == order && !earlier(b, d) {
                Some(d)
            } else {
                before
            },
            (None, Some(d)) => if span.order == order {
                Some(d)
            } else {
                None
            },
            (_, None) => before,
        }
    }
}

/// The latest completion among the first `n` spans that belong to the group.
pub open spec fn latest_completion(spans: Seq<TraceSpan>, order: u32, n: nat) -> Option<Timestamp>
    decreases n,
{
    if n == 0 {
        None
    } else {
        let before = latest_completion(spans, order, (n - 1) as nat);
        let span = spans[n - 1];
        match (before, span.completed_at) {
            (Some(b), Some(c)) => if span.order == order && !earlier(c, b) {
                Some(c)
            } else {
                before
            },
            (None, Some(c)) => if span.order == order {
                Some(c)
            } else {
                None
            },
            (_, None) => before,
        }
    }
}

/// Whether `orders` are the groups that the spans belong to, ascending and each once.
pub open spec fn are_orders(orders: Seq<u32>, spans: Seq<TraceSpan>) -> bool {
    &&& forall|i: int, j: int|
        0 <= i < j < orders.len() ==> (#[trigger] orders[i]) < (#[trigger] orders[j])
    &&& forall|x: u32| #[trigger]
        orders.contains(x) <==> exists|i: int| 0 <= i < spans.len() && (#[trigger] spans[i]).order == x
}

/// The whole milliseconds from the end of one group to the start of the next, where both are
/// known.
pub open spec fn gap_millis(spans: Seq<TraceSpan>, from: u32, to: u32) -> Option<int> {
    match (
        latest_completion(spans, from, spans.len()),
        earliest_dispatch(spans, to, spans.len()),
    ) {
        (Some(end), Some(start)) => Some(truncated(elapsed_nanos(start, end), 1_000_000)),
        _ => None,
    }
}

/// The gaps between the first `n` groups: one for each two neighbours between which at least
/// a millisecond passed.
pub open spec fn gaps_between(spans: Seq<TraceSpan>, orders: Seq<u32>, n: nat) -> Seq<TraceGap>
    decreases n,
{
    if n < 2 {
        Seq::empty()
    } else {
        let before = gaps_between(spans, orders, (n - 1) as nat);
        let from = orders[n - 2];
        let to = orders[n - 1];
        match gap_millis(spans, from, to) {
            Some(ms) => if ms > 0 {
                before.push(
                    TraceGap::InterGroupGap { from_order: from, to_order: to, gap_ms: ms as u64 },
                )
            } else {
                before
            },
            None => before,
        }
    }
}

/// The groups that the spans belong to, ascending and each once.
fn group_orders(spans: &[TraceSpan]) -> (orders: Vec<u32>)
    ensures
        are_orders(orders@, spans@),
{
    let mut orders: Vec<u32> = Vec::new();
    let mut i: usize = 0;
    while i < spans.len()
        invariant
            i <= spans@.len(),
            are_orders(orders@, spans@.take(i as int)),
        decreases spans@.len() - i,
    {
        let x: u32 = spans[i].order;
        let ghost before = orders@;
        let ghost part = spans@.take(i as int);
        let mut at: usize = 0;
        while at < orders.len() && orders[at] < x
            invariant
                at <= orders@.len(),
                orders@ == before,
                forall|j: int| 0 <= j < at ==> (#[trigger] before[j]) < x,
            decreases orders@.len() - at,
        {
            at += 1;
        }
        let known: bool = at < orders.len() && orders[at] == x;
        if !known {
            proof {
                crate::lists::lemma_insert(before, at as int, x);
            }
            orders.insert(at, x);
        }
        i += 1;
        proof {
            let now = orders@;
            let next = spans@.take(i as int);
            assert(next.last() == spans@[i - 1]);
            assert forall|y: u32| #[trigger] now.contains(y) <==> exists|k: int|
                0 <= k < next.len() && (#[trigger] next[k]).order == y by {
                if before.contains(y) {
                    let k = choose|k: int| 0 <= k < part.len() && (#[trigger] part[k]).order == y;
                    assert(next[k] == part[k]);
                }
                if y == x {
                    assert(next[i - 1].order == y);
                    if known {
                        assert(before[at as int] == y);
                    }
                }
                if exists|k: int| 0 <= k < next.len() && (#[trigger] next[k]).order == y {
                    let k = choose|k: int| 0 <= k < next.len() && (#[trigger] next[k]).order == y;
                    if k < i - 1 {
                        assert(part[k] == next[k]);
                        assert(before.contains(y));
                    }
                }
            }
            if !known {
                assert forall|a: int, b: int| 0 <= a < b < now.len() implies (#[trigger] now[a])
                    < (#[trigger] now[b]) by {
                    let c = if a < at {
                        a
                    } else {
                        a - 1
                    };
                    let d = if b < at {
                        b
                    } else {
                        b - 1
                    };
                    if a == at {
                        assert(now[b] == before[d]);
                        assert(before[at as int] <= before[d]);
                    } else if b == at {
                        assert(now[a] == before[c]);
                    } else {
                        assert(now[a] == before[c] && now[b] == before[d]);
                    }
                }
            }
        }
    }
    assert(spans@.take(i as int) =~= spans@);
    orders
}

/// The earliest dispatch in a group.
fn group_start(spans: &[TraceSpan], order: u32) -> (t: Option<Timestamp>)
    ensures
        t == earliest_dispatch(spans@, order, spans@.len()),
{
    let mut t: Option<Timestamp> = None;
    let mut i: usize = 0;
    while i < spans.len()
        invariant
            i <= spans@.len(),
            t == earliest_dispatch(spans@, order, i as nat),
        decreases spans@.len() - i,
    {
        if spans[i].order == order {
            if let Some(d) = spans[i].dispatched_at {
                t = match t {
                    Some(existing) => if existing.is_before(&d) {
                        Some(existing)
                    } else {
                        Some(d)
                    },
                    None => Some(d),
                };
            }
        }
        i += 1;
    }
    t
}

/// The latest completion in a group.
fn group_end(spans: &[TraceSpan], order: u32) -> (t: Option<Timestamp>)
    ensures
        t == latest_completion(spans@, order, spans@.len()),
{
    let mut t: Option<Timestamp> = None;
    let mut i: usize = 0;
    while i < spans.len()
        invariant
            i <= spans@.len(),
            t == latest_completion(spans@, order, i as nat),
        decreases spans@.len() - i,
    {
        if spans[i].order == order {
            if let Some(c) = spans[i].completed_at {
                t = match t {
                    Some(existing) => if c.is_before(&existing) {
                        Some(existing)
                    } else {
                        Some(c)
                    },
                    None => Some(c),
                };
            }
        }
        i += 1;
    }
    t
}

/// Detects gaps between order groups (time between the latest completion in one group and
/// the earliest dispatch in the next).
pub fn detect_inter_group_gaps(spans: &[TraceSpan]) -> (gaps: Vec<TraceGap>)
    ensures
        exists|orders: Seq<u32>| #[trigger]
            are_orders(orders, spans@) && gaps@ == gaps_between(spans@, orders, orders.len()),
{
    let orders = group_orders(spans);
    let mut gaps: Vec<TraceGap> = Vec::new();
    let mut n: usize = 1;
    let count: usize = orders.len();
    while n < count
        invariant
            1 <= n,
            count == orders@.len(),
            n <= count || n == 1,
            gaps@ == gaps_between(spans@, orders@, n as nat),
        decreases count - n,
    {
        let from_order: u32 = orders[n - 1];
        let to_order: u32 = orders[n];
        if let (Some(prev_end), Some(next_start)) = (
            group_end(spans, from_order),
            group_start(spans, to_order),
        ) {
            let gap_ms: i64 = next_start.millis_since(&prev_end);
            if gap_ms > 0 {
                gaps.push(
                    TraceGap::InterGroupGap { from_order, to_order, gap_ms: gap_ms as u64 },
                );
            }
        }
        n += 1;
    }
    assert(gaps@ == gaps_between(spans@, orders@, orders@.len()));
    gaps
}

/// The groups that spans belong to are determined by the spans.
pub proof fn law_orders_unique(a: Seq<u32>, b: Seq<u32>, spans: Seq<TraceSpan>)
    requires
        are_orders(a, spans),
        are_orders(b, spans),
    ensures
        a == b,
{
    lemma_orders_prefix(a, b, spans, a.len() as int);
    lemma_orders_prefix(b, a, spans, b.len() as int);
    assert(a =~= b);
}

/// Two lists of the groups agree on their first `n`.
proof fn lemma_orders_prefix(a: Seq<u32>, b: Seq<u32>, spans: Seq<TraceSpan>, n: int)
    requires
        are_orders(a, spans),
        are_orders(b, spans),
        0 <= n <= a.len(),
    ensures
        n <= b.len(),
        forall|i: int| 0 <= i < n ==> #[trigger] a[i] == b[i],
    decreases n,
{
    if n > 0 {
        let i = n - 1;
        lemma_orders_prefix(a, b, spans, i);
        assert(a.contains(a[i]));
        assert(b.contains(a[i]));
        let j = choose|j: int| 0 <= j < b.len() && b[j] == a[i];
        if j < i {
            assert(a[j] == b[j]);
        } else if j > i {
            assert(b.contains(b[i]));
            assert(a.contains(b[i]));
            let k = choose|k: int| 0 <= k < a.len() && a[k] == b[i];
            if k < i {
                assert(a[k] == b[k]);
            }
        }
    }
}

/// The earliest dispatch of a group is a dispatch in it that no other precedes, and the
/// latest completion a completion in it that precedes no other.
pub proof fn law_group_bounds(spans: Seq<TraceSpan>, order: u32, n: nat)
    requires
        n <= spans.len(),
    ensures
        earliest_dispatch(spans, order, n) matches Some(t) ==> {
            &&& exists|i: int|
                0 <= i < n && (#[trigger] spans[i]).order == order && spans[i].dispatched_at == Some(
                    t,
                )
            &&& forall|i: int|
                0 <= i < n && (#[trigger] spans[i]).order == order && spans[i].dispatched_at is Some
                    ==> !earlier(spans[i].dispatched_at->0, t)
        },
        earliest_dispatch(spans, order, n) is None ==> forall|i: int|
            0 <= i < n && (#[trigger] spans[i]).order == order ==> spans[i].dispatched_at is None,
        latest_completion(spans, order, n) matches Some(t) ==> {
            &&& exists|i: int|
                0 <= i < n && (#[trigger] spans[i]).order == order && spans[i].completed_at == Some(t)
            &&& forall|i: int|
                0 <= i < n && (#[trigger] spans[i]).order == order && spans[i].completed_at is Some
                    ==> !earlier(t, spans[i].completed_at->0)
        },
        latest_completion(spans, order, n) is None ==> forall|i: int|
            0 <= i < n && (#[trigger] spans[i]).order == order ==> spans[i].completed_at is None,
    decreases n,
{
    if n > 0 {
        law_group_bounds(spans, order, (n - 1) as nat);
        let m = (n - 1) as nat;
        let span = spans[n - 1];
        if let Some(t) = earliest_dispatch(spans, order, n) {
            if earliest_dispatch(spans, order, m) == Some(t) {
                let i = choose|i: int|
                    0 <= i < m && (#[trigger] spans[i]).order == order && spans[i].dispatched_at
                        == Some(t);
                assert(spans[i].order == order);
            } else {
                assert(spans[n - 1].order == order && spans[n - 1].dispatched_at == Some(t));
            }
        }
        if let Some(t) = latest_completion(spans, order, n) {
            if latest_completion(spans, order, m) == Some(t) {
                let i = choose|i: int|
                    0 <= i < m && (#[trigger] spans[i]).order == order && spans[i].completed_at
                        == Some(t);
                assert(spans[i].order == order);
            } else {
                assert(spans[n - 1].order == order && spans[n - 1].completed_at == Some(t));
            }
        }
        lemma_earlier_all();
    }
}

/// A gap is reported for every two neighbouring groups between the latest completion of the first
/// and the earliest dispatch of the second of which at least one whole millisecond passes, with
/// the numbers of the two groups and the whole milliseconds between them.
pub proof fn law_gap_is_reported(
    spans: Seq<TraceSpan>,
    orders: Seq<u32>,
    n: nat,
    i: int,
    end: Timestamp,
    start: Timestamp,
)
    requires
        n <= orders.len(),
        1 <= i < n,
        latest_completion(spans, orders[i - 1], spans.len()) == Some(end),
        earliest_dispatch(spans, orders[i], spans.len()) == Some(start),
        1_000_000 <= elapsed_nanos(start, end),
    ensures
        gaps_between(spans, orders, n).contains(
            TraceGap::InterGroupGap {
                from_order: orders[i - 1],
                to_order: orders[i],
                gap_ms: (elapsed_nanos(start, end) / 1_000_000) as u64,
            },
        ),
    decreases n,
{
    let gap = TraceGap::InterGroupGap {
        from_order: orders[i - 1],
        to_order: orders[i],
        gap_ms: (elapsed_nanos(start, end) / 1_000_000) as u64,
    };
    let before = gaps_between(spans, orders, (n - 1) as nat);
    let all = gaps_between(spans, orders, n);
    if i < n - 1 {
        law_gap_is_reported(spans, orders, (n - 1) as nat, i, end, start);
        let k = choose|k: int| 0 <= k < before.len() && before[k] == gap;
        assert(all[k] == gap);
    } else {
        assert(elapsed_nanos(start, end) / 1_000_000 >= 1);
        assert(all[before.len() as int] == gap);
    }
}

/// Nothing else is reported as a gap between groups, and gaps come in the order of the groups.
pub proof fn law_only_gaps_are_reported(
    spans: Seq<TraceSpan>,
    orders: Seq<u32>,
    n: nat,
    k: int,
)
    requires
        n <= orders.len(),
        0 <= k < gaps_between(spans, orders, n).len(),
    ensures
        exists|i: int, end: Timestamp, start: Timestamp|
            1 <= i < n && latest_completion(spans, #[trigger] orders[i - 1], spans.len()) == Some(
                end,
            ) && earliest_dispatch(spans, orders[i], spans.len()) == Some(start) && 1_000_000
                <= #[trigger] elapsed_nanos(start, end) && gaps_between(spans, orders, n)[k]
                == (TraceGap::InterGroupGap {
                from_order: orders[i - 1],
                to_order: orders[i],
                gap_ms: (elapsed_nanos(start, end) / 1_000_000) as u64,
            }),
    decreases n,
{
    if n >= 2 {
        let m = (n - 1) as nat;
        let before = gaps_between(spans, orders, m);
        if k < before.len() {
            law_only_gaps_are_reported(spans, orders, m, k);
            let (i, end, start) = choose|i: int, end: Timestamp, start: Timestamp|
                1 <= i < m && latest_completion(spans, #[trigger] orders[i - 1], spans.len())
                    == Some(end) && earliest_dispatch(spans, orders[i], spans.len()) == Some(start)
                    && 1_000_000 <= #[trigger] elapsed_nanos(start, end) && before[k]
                    == (TraceGap::InterGroupGap {
                    from_order: orders[i - 1],
                    to_order: orders[i],
                    gap_ms: (elapsed_nanos(start, end) / 1_000_000) as u64,
                });
            assert(gaps_between(spans, orders, n)[k] == before[k]);
            assert(latest_completion(spans, orders[i - 1], spans.len()) == Some(end));
            assert(1_000_000 <= elapsed_nanos(start, end));
        } else {
            let i: int = n - 1;
            let end = latest_completion(spans, orders[i - 1], spans.len())->0;
            let start = earliest_dispatch(spans, orders[i], spans.len())->0;
            assert(latest_completion(spans, orders[i - 1], spans.len()) == Some(end));
            let e = elapsed_nanos(start, end);
            assert(truncated(e, 1_000_000) > 0);
            if e >= 0 {
                assert(e / 1_000_000 > 0);
            }
            assert(1_000_000 <= elapsed_nanos(start, end));
        }
    }
}

/// Groups are looked at in ascending order, each once, and every span belongs to one of them.
pub proof fn law_orders(orders: Seq<u32>, spans: Seq<TraceSpan>, i: int, a: int, b: int)
    requires
        are_orders(orders, spans),
    ensures
        0 <= i < spans.len() ==> orders.contains(spans[i].order),
        0 <= a < b < orders.len() ==> orders[a] < orders[b],
        0 <= a < orders.len() ==> exists|k: int|
            0 <= k < spans.len() && (#[trigger] spans[k]).order == orders[a],
{
    if 0 <= a < orders.len() {
        assert(orders.contains(orders[a]));
    }
}

} // verus!

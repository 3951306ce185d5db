//! The order in which work is taken up: level by level, what has to be done first before
//! what waits for it, and on one level the more urgent first.

use vstd::prelude::*;

use crate::graph::{acyclic, lemma_no_source_is_cyclic};
use crate::lists::lemma_insert;

verus! {

/// One more than the highest level among the nodes below place `k` in `r` from which an arc
/// leads to the node at `j`, or 0 where there are none.
pub open spec fn level_within<X>(g: Set<(X, X)>, r: Seq<X>, j: int, k: int) -> int
    decreases j, k,
{
    if k <= 0 || k > j {
        0
    } else {
        let rest = level_within(g, r, j, k - 1);
        let next = level_within(g, r, k - 1, k - 1) + 1;
        if g.contains((r[k - 1], r[j])) && next > rest {
            next
        } else {
            rest
        }
    }
}

/// The level of the node at `j`: 0 where no node before it blocks it, and otherwise one more
/// than the highest level of those that do.
pub open spec fn level<X>(g: Set<(X, X)>, r: Seq<X>, j: int) -> int {
    level_within(g, r, j, j)
}

/// Whether the node at `a` has its turn before the one at `b`: it is on a lower level, or on
/// the same level and at least as urgent.
pub open spec fn in_turn<X>(
    g: Set<(X, X)>,
    r: Seq<X>,
    a: int,
    b: int,
    urgency: spec_fn(X) -> int,
) -> bool {
    ||| level(g, r, a) < level(g, r, b)
    ||| level(g, r, a) == level(g, r, b) && urgency(r[a]) <= urgency(r[b])
}

/// Whether `r` is an order of its nodes in which the first `m` come after everything that
/// blocks them and have their turn in order, and each of the others is blocked by one of the
/// others.
pub open spec fn is_schedule<X>(
    g: Set<(X, X)>,
    r: Seq<X>,
    m: int,
    urgency: spec_fn(X) -> int,
) -> bool {
    &&& 0 <= m <= r.len()
    &&& forall|i: int, j: int|
        0 <= i < r.len() && 0 <= j < m && #[trigger] g.contains((r[i], r[j])) ==> i < j
    &&& forall|a: int, b: int| 0 <= a < b < m ==> #[trigger] in_turn(g, r, a, b, urgency)
    &&& forall|j: int| m <= j < r.len() ==> #[trigger] blocked_from(g, r, m, j)
}

/// Whether one of the nodes from place `m` on blocks the node at `j`.
pub open spec fn blocked_from<X>(g: Set<(X, X)>, r: Seq<X>, m: int, j: int) -> bool {
    exists|i: int| m <= i < r.len() && #[trigger] g.contains((r[i], r[j]))
}

/// Whether `x` stands below place `k` in `r`.
spec fn below<X>(r: Seq<X>, x: X, k: int) -> bool {
    exists|i: int| 0 <= i < k && i < r.len() && #[trigger] r[i] == x
}

/// Whether `r` is in order so far, all nodes from place `start` on are on level `top`, and
/// those before it on lower ones.
spec fn planned<X>(
    g: Set<(X, X)>,
    r: Seq<X>,
    start: int,
    top: int,
    urgency: spec_fn(X) -> int,
) -> bool {
    &&& 0 <= start <= r.len()
    &&& r.no_duplicates()
    &&& forall|j: int, u: X|
        0 <= j < r.len() && #[trigger] g.contains((u, r[j])) ==> below(r, u, j)
    &&& forall|j: int| 0 <= j < start ==> #[trigger] level(g, r, j) < top
    &&& forall|j: int| start <= j < r.len() ==> #[trigger] level(g, r, j) == top
    &&& forall|a: int, b: int| 0 <= a < b < r.len() ==> #[trigger] in_turn(g, r, a, b, urgency)
}

/// The level of a node depends on what stands before it alone.
proof fn lemma_level_prefix<X>(g: Set<(X, X)>, r: Seq<X>, s: Seq<X>, j: int, k: int)
    requires
        0 <= k <= j < r.len(),
        r.len() <= s.len(),
        forall|i: int| 0 <= i < r.len() ==> s[i] == #[trigger] r[i],
    ensures
        level_within(g, r, j, k) == level_within(g, s, j, k),
    decreases j, k,
{
    if k > 0 {
        assert(s[k - 1] == r[k - 1]);
        assert(s[j] == r[j]);
        lemma_level_prefix(g, r, s, j, k - 1);
        lemma_level_prefix(g, r, s, k - 1, k - 1);
    }
}

/// A level is above those of all nodes that lead to it, and, where it is not 0, directly
/// above one of them.
proof fn lemma_level<X>(g: Set<(X, X)>, r: Seq<X>, j: int, k: int)
    requires
        k <= j,
    ensures
        level_within(g, r, j, k) >= 0,
        forall|i: int|
            0 <= i < k && #[trigger] g.contains((r[i], r[j])) ==> level(g, r, i) < level_within(
                g,
                r,
                j,
                k,
            ),
        level_within(g, r, j, k) > 0 ==> exists|i: int|
            0 <= i < k && #[trigger] g.contains((r[i], r[j])) && level_within(g, r, j, k) == level(
                g,
                r,
                i,
            ) + 1,
    decreases k,
{
    if k > 0 {
        lemma_level(g, r, j, k - 1);
        let rest = level_within(g, r, j, k - 1);
        let next = level(g, r, k - 1) + 1;
        if g.contains((r[k - 1], r[j])) && next > rest {
            assert(level_within(g, r, j, k) == next);
        } else {
            assert(level_within(g, r, j, k) == rest);
            if rest > 0 {
                let i = choose|i: int|
                    0 <= i < k - 1 && #[trigger] g.contains((r[i], r[j])) && rest == level(g, r, i)
                        + 1;
                assert(g.contains((r[i], r[j])));
            }
        }
        if g.contains((r[k - 1], r[j])) && next > rest {
            lemma_level_sign(g, r, k - 1, k - 1);
        }
    }
}

/// No level is negative.
proof fn lemma_level_sign<X>(g: Set<(X, X)>, r: Seq<X>, j: int, k: int)
    ensures
        level_within(g, r, j, k) >= 0,
    decreases k,
{
    if 0 < k <= j {
        lemma_level_sign(g, r, j, k - 1);
    }
}

/// A batch of nodes that wait for the placed ones alone, and each for one of the top level,
/// makes the next level.
proof fn lemma_extend<X>(
    g: Set<(X, X)>,
    r: Seq<X>,
    start: int,
    top: int,
    batch: Seq<X>,
    urgency: spec_fn(X) -> int,
)
    requires
        planned(g, r, start, top, urgency),
        top >= -1,
        top < 0 ==> r.len() == 0,
        batch.no_duplicates(),
        forall|b: int| 0 <= b < batch.len() ==> !r.contains(#[trigger] batch[b]),
        forall|b: int, u: X|
            0 <= b < batch.len() && #[trigger] g.contains((u, batch[b])) ==> r.contains(u),
        top >= 0 ==> forall|b: int|
            0 <= b < batch.len() ==> blocked_by(g, r, start, #[trigger] batch[b]),
        forall|a: int, b: int|
            0 <= a < b < batch.len() ==> urgency(#[trigger] batch[a]) <= urgency(
                #[trigger] batch[b],
            ),
    ensures
        planned(g, r + batch, r.len() as int, top + 1, urgency),
{
    let s = r + batch;
    assert(forall|i: int| 0 <= i < r.len() ==> s[i] == #[trigger] r[i]);
    assert(s.no_duplicates()) by {
        assert forall|i: int, j: int| 0 <= i < s.len() && 0 <= j < s.len() && i != j implies s[i]
            != s[j] by {
            if i < r.len() && j >= r.len() {
                assert(!r.contains(batch[j - r.len()]));
            }
            if j < r.len() && i >= r.len() {
                assert(!r.contains(batch[i - r.len()]));
            }
        }
    }
    assert forall|j: int, u: X| 0 <= j < s.len() && #[trigger] g.contains((u, s[j])) implies below(
        s,
        u,
        j,
    ) by {
        if j < r.len() {
            assert(g.contains((u, r[j])));
            let i = choose|i: int| 0 <= i < j && i < r.len() && #[trigger] r[i] == u;
            assert(s[i] == u);
        } else {
            assert(g.contains((u, batch[j - r.len()])));
            let i = choose|i: int| 0 <= i < r.len() && r[i] == u;
            assert(s[i] == u);
        }
    }
    assert forall|j: int| 0 <= j < r.len() implies #[trigger] level(g, s, j) == level(g, r, j)
        && level(g, r, j) <= top by {
        lemma_level_prefix(g, r, s, j, j);
    }
    assert forall|j: int| r.len() <= j < s.len() implies #[trigger] level(g, s, j) == top + 1 by {
        lemma_level(g, s, j, j);
        let b = j - r.len();
        assert(s[j] == batch[b]);
        let n = level(g, s, j);
        if n > 0 {
            let i = choose|i: int|
                0 <= i < j && #[trigger] g.contains((s[i], s[j])) && n == level(g, s, i) + 1;
            assert(g.contains((s[i], batch[b])));
            let k = choose|k: int| 0 <= k < r.len() && r[k] == s[i];
            assert(s[k] == s[i]);
            assert(i == k);
        }
        if top >= 0 {
            assert(blocked_by(g, r, start, batch[b]));
            let i = choose|i: int|
                start <= i < r.len() && #[trigger] g.contains((r[i], batch[b]));
            assert(g.contains((s[i], s[j])));
            assert(level(g, s, i) == top);
        }
    }
    assert forall|a: int, b: int| 0 <= a < b < s.len() implies #[trigger] in_turn(
        g,
        s,
        a,
        b,
        urgency,
    ) by {
        if b < r.len() {
            assert(in_turn(g, r, a, b, urgency));
            assert(s[a] == r[a] && s[b] == r[b]);
        } else if a >= r.len() {
            assert(s[a] == batch[a - r.len()] && s[b] == batch[b - r.len()]);
        }
        assert(level(g, s, a) <= level(g, s, b));
    }
}

/// Whether one of the nodes from place `start` on blocks `x`.
spec fn blocked_by<X>(g: Set<(X, X)>, r: Seq<X>, start: int, x: X) -> bool {
    exists|i: int| start <= i < r.len() && #[trigger] g.contains((r[i], x))
}

/// The arcs that lists of blocking nodes stand for.
pub open spec fn blocker_arcs(blockers: Seq<Vec<usize>>) -> Set<(usize, usize)> {
    Set::new(
        |p: (usize, usize)| p.1 < blockers.len() && blockers[p.1 as int]@.contains(p.0),
    )
}

/// Whether all that blocks a node has been placed.
spec fn unblocked(blockers: Seq<Vec<usize>>, placed: Seq<bool>, v: usize) -> bool {
    forall|u: usize| #[trigger] blocker_arcs(blockers).contains((u, v)) ==> placed[u as int]
}

/// Whether a node can be placed: it has not been, and all that blocks it has.
spec fn is_free(blockers: Seq<Vec<usize>>, placed: Seq<bool>, v: usize) -> bool {
    v < placed.len() && !placed[v as int] && unblocked(blockers, placed, v)
}

/// Whether the lists of blocking nodes speak of nodes below their own number.
pub open spec fn in_bounds(blockers: Seq<Vec<usize>>) -> bool {
    forall|v: int, k: int|
        0 <= v < blockers.len() && 0 <= k < blockers[v]@.len() ==> (#[trigger] blockers[v]@[k])
            < blockers.len()
}

/// Whether all that blocks the node has been placed.
fn all_placed(blockers: &Vec<Vec<usize>>, placed: &Vec<bool>, v: usize) -> (r: bool)
    requires
        in_bounds(blockers@),
        placed@.len() == blockers@.len(),
        v < blockers@.len(),
    ensures
        r == unblocked(blockers@, placed@, v),
{
    let list = &blockers[v];
    let mut k: usize = 0;
    while k < list.len()
        invariant
            in_bounds(blockers@),
            placed@.len() == blockers@.len(),
            v < blockers@.len(),
            *list == blockers@[v as int],
            k <= list@.len(),
            forall|i: int| 0 <= i < k ==> placed@[#[trigger] list@[i] as int],
        decreases list@.len() - k,
    {
        let u: usize = blockers[v][k];
        if !placed[u] {
            assert(blocker_arcs(blockers@).contains((u, v)));
            return false;
        }
        k += 1;
    }
    true
}

/// The nodes that can be placed, the most urgent first.
fn next_batch(
    blockers: &Vec<Vec<usize>>,
    urgency: &Vec<u8>,
    placed: &Vec<bool>,
) -> (batch: Vec<usize>)
    requires
        in_bounds(blockers@),
        urgency@.len() == blockers@.len(),
        placed@.len() == blockers@.len(),
    ensures
        batch@.no_duplicates(),
        forall|v: usize| #[trigger]
            batch@.contains(v) <==> is_free(blockers@, placed@, v),
        forall|a: int, b: int|
            0 <= a < b < batch@.len() ==> urgency@[#[trigger] batch@[a] as int]
                <= urgency@[#[trigger] batch@[b] as int],
{
    let mut batch: Vec<usize> = Vec::new();
    let mut v: usize = 0;
    while v < placed.len()
        invariant
            in_bounds(blockers@),
            urgency@.len() == blockers@.len(),
            placed@.len() == blockers@.len(),
            v <= placed@.len(),
            batch@.no_duplicates(),
            forall|x: usize| #[trigger]
                batch@.contains(x) <==> x < v && is_free(blockers@, placed@, x),
            forall|a: int, b: int|
                0 <= a < b < batch@.len() ==> urgency@[#[trigger] batch@[a] as int]
                    <= urgency@[#[trigger] batch@[b] as int],
        decreases placed@.len() - v,
    {
        if !placed[v] && all_placed(blockers, placed, v) {
            let ghost before = batch@;
            let mut at: usize = batch.len();
            assert forall|i: int| 0 <= i < before.len() implies (#[trigger] before[i]) < v by {
                assert(before.contains(before[i]));
            }
            while at > 0 && urgency[v] < urgency[batch[at - 1]]
                invariant
                    at <= batch@.len(),
                    batch@ == before,
                    v < urgency@.len(),
                    forall|i: int| 0 <= i < before.len() ==> (#[trigger] before[i]) < v,
                    forall|i: int|
                        at <= i < before.len() ==> urgency@[v as int] <= urgency@[#[trigger] before[i] as int],
                decreases at,
            {
                at -= 1;
            }
            proof {
                assert(!before.contains(v));
                lemma_insert(before, at as int, v);
            }
            batch.insert(at, v);
            proof {
                let s = batch@;
                assert forall|a: int, b: int| 0 <= a < b < s.len() implies urgency@[#[trigger] s[a] as int]
                    <= urgency@[#[trigger] s[b] as int] by {
                    let c = if a < at {
                        a
                    } else {
                        a - 1
                    };
                    let d = if b < at {
                        b
                    } else {
                        b - 1
                    };
                    if a == at {
                        assert(s[b] == before[d]);
                    } else if b == at {
                        assert(s[a] == before[c]);
                        if a < at - 1 {
                            assert(urgency@[before[a] as int] <= urgency@[before[at - 1] as int]);
                        }
                    } else {
                        assert(s[a] == before[c] && s[b] == before[d]);
                    }
                }
            }
        }
        v += 1;
    }
    batch
}

/// `n` times `false`.
fn flags(n: usize) -> (v: Vec<bool>)
    ensures
        v@.len() == n,
        forall|i: int| 0 <= i < n ==> !#[trigger] v@[i],
{
    let mut v: Vec<bool> = Vec::new();
    while v.len() < n
        invariant
            v@.len() <= n,
            forall|i: int| 0 <= i < v@.len() ==> !#[trigger] v@[i],
        decreases n - v@.len(),
    {
        v.push(false);
    }
    v
}

/// Whether the flags say which nodes are in the list.
spec fn marked(order: Seq<usize>, placed: Seq<bool>) -> bool {
    &&& forall|j: int| 0 <= j < order.len() ==> (#[trigger] order[j]) < placed.len()
    &&& forall|v: usize|
        v < placed.len() ==> (#[trigger] placed[v as int] <==> order.contains(v))
}

/// Appends the nodes of a batch to the list and marks them.
fn place(order: &mut Vec<usize>, placed: &mut Vec<bool>, batch: &Vec<usize>)
    requires
        marked(old(order)@, old(placed)@),
        forall|b: int| 0 <= b < batch@.len() ==> (#[trigger] batch@[b]) < old(placed)@.len(),
    ensures
        final(order)@ == old(order)@ + batch@,
        marked(final(order)@, final(placed)@),
        final(placed)@.len() == old(placed)@.len(),
{
    let mut k: usize = 0;
    assert(order@ =~= old(order)@ + batch@.take(0));
    while k < batch.len()
        invariant
            k <= batch@.len(),
            order@ == old(order)@ + batch@.take(k as int),
            marked(order@, placed@),
            placed@.len() == old(placed)@.len(),
            forall|b: int| 0 <= b < batch@.len() ==> (#[trigger] batch@[b]) < placed@.len(),
        decreases batch@.len() - k,
    {
        let ghost o = order@;
        let ghost p = placed@;
        let v: usize = batch[k];
        order.push(v);
        placed.set(v, true);
        proof {
            let q = order@;
            assert(q == o.push(v));
            assert forall|x: usize| x < placed@.len() implies (#[trigger] placed@[x as int]
                <==> q.contains(x)) by {
                if x == v {
                    assert(q[o.len() as int] == v);
                } else {
                    assert(placed@[x as int] == p[x as int]);
                    if o.contains(x) {
                        let i = choose|i: int| 0 <= i < o.len() && o[i] == x;
                        assert(q[i] == x);
                    }
                    if q.contains(x) {
                        let i = choose|i: int| 0 <= i < q.len() && q[i] == x;
                        assert(o[i] == x);
                    }
                }
            }
            assert(batch@.take(k + 1) =~= batch@.take(k as int).push(v));
            assert(q =~= old(order)@ + batch@.take(k + 1));
        }
        k += 1;
    }
    assert(batch@.take(k as int) =~= batch@);
}

/// The urgency of a node.
pub open spec fn urgency_of(urgency: Seq<u8>) -> spec_fn(usize) -> int {
    |v: usize| urgency[v as int] as int
}

/// Whether a node waits for one of those from place `start` on, or for one that has not been
/// placed.
spec fn waits(blockers: Seq<Vec<usize>>, order: Seq<usize>, start: int, v: usize) -> bool {
    exists|u: usize| #[trigger]
        blocker_arcs(blockers).contains((u, v)) && !below(order, u, start)
}

/// Whether all nodes that have not been placed wait for the top level or for one another.
spec fn all_wait(
    blockers: Seq<Vec<usize>>,
    order: Seq<usize>,
    start: int,
    placed: Seq<bool>,
) -> bool {
    forall|v: usize|
        v < placed.len() && !placed[v as int] ==> #[trigger] waits(blockers, order, start, v)
}

/// The next batch fits behind what has been placed.
proof fn lemma_batch_fits(
    blockers: Seq<Vec<usize>>,
    urgency: Seq<u8>,
    order: Seq<usize>,
    start: int,
    top: int,
    placed: Seq<bool>,
    batch: Seq<usize>,
)
    requires
        in_bounds(blockers),
        placed.len() == blockers.len(),
        top >= -1,
        top < 0 ==> order.len() == 0,
        planned(blocker_arcs(blockers), order, start, top, urgency_of(urgency)),
        marked(order, placed),
        top >= 0 ==> all_wait(blockers, order, start, placed),
        batch.no_duplicates(),
        forall|v: usize| #[trigger] batch.contains(v) <==> is_free(blockers, placed, v),
        forall|a: int, b: int|
            0 <= a < b < batch.len() ==> urgency[#[trigger] batch[a] as int]
                <= urgency[#[trigger] batch[b] as int],
    ensures
        planned(
            blocker_arcs(blockers),
            order + batch,
            order.len() as int,
            top + 1,
            urgency_of(urgency),
        ),
{
    let g = blocker_arcs(blockers);
    assert forall|b: int| 0 <= b < batch.len() implies !order.contains(#[trigger] batch[b]) by {
        assert(batch.contains(batch[b]));
    }
    assert forall|b: int, u: usize|
        0 <= b < batch.len() && #[trigger] g.contains((u, batch[b])) implies order.contains(u) by {
        assert(batch.contains(batch[b]));
        lemma_in_bounds(blockers, u, batch[b]);
        assert(placed[u as int]);
    }
    if top >= 0 {
        assert forall|b: int| 0 <= b < batch.len() implies blocked_by(
            g,
            order,
            start,
            #[trigger] batch[b],
        ) by {
            let v = batch[b];
            assert(batch.contains(v));
            assert(waits(blockers, order, start, v));
            let u = choose|u: usize| #[trigger] g.contains((u, v)) && !below(order, u, start);
            lemma_in_bounds(blockers, u, v);
            assert(placed[u as int]);
            let i = choose|i: int| 0 <= i < order.len() && order[i] == u;
            assert(g.contains((order[i], v)));
        }
    }
    let urg = urgency_of(urgency);
    assert forall|a: int, b: int| 0 <= a < b < batch.len() implies urg(#[trigger] batch[a])
        <= urg(#[trigger] batch[b]) by {
        assert(urgency[batch[a] as int] <= urgency[batch[b] as int]);
    }
    lemma_extend(g, order, start, top, batch, urg);
}

/// What blocks a node is itself a node.
proof fn lemma_in_bounds(blockers: Seq<Vec<usize>>, u: usize, v: usize)
    requires
        in_bounds(blockers),
        blocker_arcs(blockers).contains((u, v)),
    ensures
        u < blockers.len(),
{
    let list = blockers[v as int]@;
    let k = choose|k: int| 0 <= k < list.len() && list[k] == u;
    assert(list[k] < blockers.len());
}

/// A node that is not placed with all free ones waits for one of them, or for one that has
/// not been placed.
proof fn lemma_all_wait(
    blockers: Seq<Vec<usize>>,
    order: Seq<usize>,
    placed: Seq<bool>,
    batch: Seq<usize>,
    after: Seq<bool>,
)
    requires
        in_bounds(blockers),
        placed.len() == blockers.len(),
        after.len() == placed.len(),
        marked(order, placed),
        marked(order + batch, after),
        forall|v: usize| #[trigger] batch.contains(v) <==> is_free(blockers, placed, v),
    ensures
        all_wait(blockers, order + batch, order.len() as int, after),
{
    let s = order + batch;
    assert forall|v: usize| v < after.len() && !after[v as int] implies #[trigger] waits(
        blockers,
        s,
        order.len() as int,
        v,
    ) by {
        if batch.contains(v) {
            let i = choose|i: int| 0 <= i < batch.len() && batch[i] == v;
            assert(s[order.len() + i] == v);
        }
        if order.contains(v) {
            let i = choose|i: int| 0 <= i < order.len() && order[i] == v;
            assert(s[i] == v);
        }
        assert(!is_free(blockers, placed, v));
        let u = choose|u: usize| #[trigger]
            blocker_arcs(blockers).contains((u, v)) && !placed[u as int];
        lemma_in_bounds(blockers, u, v);
        if below(s, u, order.len() as int) {
            let i = choose|i: int| 0 <= i < order.len() && i < s.len() && #[trigger] s[i] == u;
            assert(order[i] == u);
        }
    }
}

/// A list of different nodes has at most as many as there are.
proof fn lemma_at_most(order: Seq<usize>, n: int)
    requires
        n >= 0,
        order.no_duplicates(),
        forall|j: int| 0 <= j < order.len() ==> (#[trigger] order[j]) < n,
    ensures
        order.len() <= n,
{
    let ints = order.map_values(|v: usize| v as int);
    assert(ints.no_duplicates()) by {
        assert forall|i: int, j: int|
            0 <= i < ints.len() && 0 <= j < ints.len() && i != j implies ints[i] != ints[j] by {
            assert(order[i] != order[j]);
        }
    }
    ints.unique_seq_to_set();
    let range = vstd::set_lib::set_int_range(0, n);
    vstd::set_lib::lemma_int_range(0, n);
    assert(ints.to_set().subset_of(range)) by {
        assert forall|x: int| ints.to_set().contains(x) implies range.contains(x) by {
            let i = choose|i: int| 0 <= i < ints.len() && ints[i] == x;
            assert(order[i] < n);
        }
    }
    vstd::set_lib::lemma_len_subset(ints.to_set(), range);
}

/// The nodes in the order in which they are taken up, the rest behind, and how many are
/// taken up.
pub fn schedule(blockers: &Vec<Vec<usize>>, urgency: &Vec<u8>) -> (r: (Vec<usize>, Ghost<int>))
    requires
        in_bounds(blockers@),
        urgency@.len() == blockers@.len(),
    ensures
        r.0@.no_duplicates(),
        forall|v: usize| #[trigger] r.0@.contains(v) <==> v < blockers@.len(),
        is_schedule(blocker_arcs(blockers@), r.0@, r.1@, urgency_of(urgency@)),
{
    let n: usize = blockers.len();
    let ghost g = blocker_arcs(blockers@);
    let ghost urg = urgency_of(urgency@);
    let mut placed = flags(n);
    let mut order: Vec<usize> = Vec::new();
    let ghost mut start: int = 0;
    let ghost mut top: int = -1;
    let mut batch = next_batch(blockers, urgency, &placed);
    while batch.len() > 0
        invariant
            n == blockers@.len(),
            g == blocker_arcs(blockers@),
            urg == urgency_of(urgency@),
            in_bounds(blockers@),
            urgency@.len() == n,
            placed@.len() == n,
            top >= -1,
            top < 0 ==> order@.len() == 0,
            planned(g, order@, start, top, urg),
            marked(order@, placed@),
            top >= 0 ==> all_wait(blockers@, order@, start, placed@),
            batch@.no_duplicates(),
            forall|v: usize| #[trigger]
                batch@.contains(v) <==> is_free(blockers@, placed@, v),
            forall|a: int, b: int|
                0 <= a < b < batch@.len() ==> urgency@[#[trigger] batch@[a] as int]
                    <= urgency@[#[trigger] batch@[b] as int],
        decreases n - order@.len(),
    {
        let ghost before = order@;
        let ghost placed_before = placed@;
        proof {
            lemma_batch_fits(blockers@, urgency@, order@, start, top, placed@, batch@);
            assert forall|b: int| 0 <= b < batch@.len() implies (#[trigger] batch@[b]) < n by {
                assert(batch@.contains(batch@[b]));
            }
        }
        place(&mut order, &mut placed, &batch);
        proof {
            lemma_all_wait(blockers@, before, placed_before, batch@, placed@);
            lemma_at_most(order@, n as int);
            start = before.len() as int;
            top = top + 1;
        }
        batch = next_batch(blockers, urgency, &placed);
    }
    proof {
        assert forall|v: usize| !#[trigger] is_free(blockers@, placed@, v) by {
            assert(batch@.contains(v) <==> is_free(blockers@, placed@, v));
        }
    }
    let ghost m = order@.len() as int;
    let ghost planned_order = order@;
    let mut v: usize = 0;
    while v < n
        invariant
            v <= n,
            n == placed@.len(),
            m <= order@.len(),
            m == planned_order.len(),
            forall|i: int| 0 <= i < m ==> order@[i] == #[trigger] planned_order[i],
            forall|x: usize|
                x < n ==> (#[trigger] placed@[x as int] <==> planned_order.contains(x)),
            order@.no_duplicates(),
            forall|i: int| 0 <= i < m ==> (#[trigger] order@[i]) < n,
            forall|i: int|
                m <= i < order@.len() ==> (#[trigger] order@[i]) < v && !placed@[order@[i] as int],
            forall|x: usize| x < v && !placed@[x as int] ==> #[trigger] order@.contains(x),
        decreases n - v,
    {
        if !placed[v] {
            let ghost o = order@;
            proof {
                if o.contains(v) {
                    let i = choose|i: int| 0 <= i < o.len() && o[i] == v;
                    if i < m {
                        assert(planned_order[i] == v);
                        assert(planned_order.contains(v));
                    }
                }
            }
            order.push(v);
            proof {
                assert forall|x: usize| x < v + 1 && !placed@[x as int] implies #[trigger] order@.contains(x) by {
                    if x < v {
                        assert(o.contains(x));
                        let i = choose|i: int| 0 <= i < o.len() && o[i] == x;
                        assert(order@[i] == x);
                    } else {
                        assert(order@[o.len() as int] == x);
                    }
                }
            }
        }
        v += 1;
    }
    proof {
        lemma_complete(blockers@, urgency@, planned_order, start, top, placed@, order@);
    }
    (order, Ghost(m))
}

/// What is left over when nothing more becomes free is blocked by what is left over.
proof fn lemma_complete(
    blockers: Seq<Vec<usize>>,
    urgency: Seq<u8>,
    order: Seq<usize>,
    start: int,
    top: int,
    placed: Seq<bool>,
    r: Seq<usize>,
)
    requires
        in_bounds(blockers),
        placed.len() == blockers.len(),
        planned(blocker_arcs(blockers), order, start, top, urgency_of(urgency)),
        marked(order, placed),
        forall|v: usize| !#[trigger] is_free(blockers, placed, v),
        r.len() >= order.len(),
        r.no_duplicates(),
        forall|i: int| 0 <= i < order.len() ==> r[i] == #[trigger] order[i],
        forall|i: int| 0 <= i < order.len() ==> (#[trigger] r[i]) < blockers.len(),
        forall|i: int|
            order.len() <= i < r.len() ==> (#[trigger] r[i]) < blockers.len()
                && !placed[r[i] as int],
        forall|x: usize| x < blockers.len() && !placed[x as int] ==> #[trigger] r.contains(x),
    ensures
        forall|v: usize| #[trigger] r.contains(v) <==> v < blockers.len(),
        is_schedule(blocker_arcs(blockers), r, order.len() as int, urgency_of(urgency)),
{
    let g = blocker_arcs(blockers);
    let m = order.len() as int;
    let urg = urgency_of(urgency);
    assert forall|v: usize| #[trigger] r.contains(v) <==> v < blockers.len() by {
        if v < blockers.len() && placed[v as int] {
            assert(order.contains(v));
            let i = choose|i: int| 0 <= i < m && order[i] == v;
            assert(r[i] == v);
        }
        if r.contains(v) {
            let i = choose|i: int| 0 <= i < r.len() && r[i] == v;
            assert(r[i] < blockers.len());
        }
    }
    assert forall|i: int, j: int|
        0 <= i < r.len() && 0 <= j < m && #[trigger] g.contains((r[i], r[j])) implies i < j by {
        assert(r[j] == order[j]);
        assert(g.contains((r[i], order[j])));
        let k = choose|k: int| 0 <= k < j && k < order.len() && #[trigger] order[k] == r[i];
        assert(r[k] == order[k]);
    }
    assert forall|a: int, b: int| 0 <= a < b < m implies #[trigger] in_turn(g, r, a, b, urg) by {
        assert(in_turn(g, order, a, b, urg));
        lemma_level_prefix(g, order, r, a, a);
        lemma_level_prefix(g, order, r, b, b);
        assert(r[a] == order[a] && r[b] == order[b]);
    }
    assert forall|j: int| m <= j < r.len() implies #[trigger] blocked_from(g, r, m, j) by {
        let v = r[j];
        assert(!is_free(blockers, placed, v));
        let u = choose|u: usize| #[trigger] g.contains((u, v)) && !placed[u as int];
        lemma_in_bounds(blockers, u, v);
        assert(r.contains(u));
        let i = choose|i: int| 0 <= i < r.len() && r[i] == u;
        if i < m {
            assert(order[i] == u);
            assert(order.contains(u));
        }
        assert(g.contains((r[i], r[j])));
    }
}

/// Where there is no cycle every node is taken up, and whatever blocks a node comes before
/// it.
pub proof fn law_schedule_without_cycle<X>(
    g: Set<(X, X)>,
    r: Seq<X>,
    m: int,
    urgency: spec_fn(X) -> int,
)
    requires
        acyclic(g),
        is_schedule(g, r, m, urgency),
    ensures
        m == r.len(),
        forall|i: int, j: int|
            0 <= i < r.len() && 0 <= j < r.len() && #[trigger] g.contains((r[i], r[j])) ==> i < j,
{
    if m < r.len() {
        let rest = r.skip(m);
        let s = rest.to_set();
        assert(rest[0] == r[m]);
        assert(s.contains(r[m]));
        vstd::seq_lib::seq_to_set_is_finite(rest);
        assert forall|x: X| #[trigger] s.contains(x) implies exists|y: X|
            s.contains(y) && #[trigger] g.contains((y, x)) by {
            let k = choose|k: int| 0 <= k < rest.len() && rest[k] == x;
            assert(blocked_from(g, r, m, m + k));
            let i = choose|i: int| m <= i < r.len() && #[trigger] g.contains((r[i], r[m + k]));
            assert(rest[i - m] == r[i]);
            assert(s.contains(r[i]) && g.contains((r[i], x)));
        }
        lemma_no_source_is_cyclic(g, s, r[m]);
    }
}

/// The nodes that nothing blocks come first, the most urgent of them at the front.
pub proof fn law_unblocked_first<X>(
    g: Set<(X, X)>,
    r: Seq<X>,
    m: int,
    urgency: spec_fn(X) -> int,
    a: int,
    b: int,
)
    requires
        is_schedule(g, r, m, urgency),
        0 <= a < b < m,
        forall|i: int| 0 <= i < r.len() ==> !#[trigger] g.contains((r[i], r[b])),
    ensures
        forall|i: int| 0 <= i < r.len() ==> !#[trigger] g.contains((r[i], r[a])),
        urgency(r[a]) <= urgency(r[b]),
{
    assert(in_turn(g, r, a, b, urgency));
    lemma_level(g, r, a, a);
    lemma_level(g, r, b, b);
    assert forall|i: int| 0 <= i < r.len() implies !#[trigger] g.contains((r[i], r[a])) by {
        if g.contains((r[i], r[a])) {
            assert(i < a);
            lemma_level_sign(g, r, i, i);
        }
    }
}

/// The level of a node is 0 exactly where nothing blocks it. Otherwise it is above the levels
/// of all nodes that block it, and directly above one of them.
pub proof fn law_level<X>(g: Set<(X, X)>, r: Seq<X>, m: int, urgency: spec_fn(X) -> int, j: int)
    requires
        is_schedule(g, r, m, urgency),
        0 <= j < m,
    ensures
        level(g, r, j) == 0 <==> forall|i: int|
            0 <= i < r.len() ==> !#[trigger] g.contains((r[i], r[j])),
        forall|i: int|
            0 <= i < r.len() && #[trigger] g.contains((r[i], r[j])) ==> level(g, r, i) < level(
                g,
                r,
                j,
            ),
        level(g, r, j) != 0 ==> exists|i: int|
            0 <= i < m && #[trigger] g.contains((r[i], r[j])) && level(g, r, j) == level(g, r, i)
                + 1,
{
    lemma_level(g, r, j, j);
    assert forall|i: int| 0 <= i < r.len() && #[trigger] g.contains((r[i], r[j])) implies level(
        g,
        r,
        i,
    ) < level(g, r, j) by {
        lemma_level_sign(g, r, i, i);
    }
    if level(g, r, j) == 0 {
        assert forall|i: int| 0 <= i < r.len() implies !#[trigger] g.contains((r[i], r[j])) by {
            lemma_level_sign(g, r, i, i);
        }
    }
}

/// The level of a node is determined by the graph: it is the same in every schedule of the
/// same nodes.
pub proof fn law_level_of_graph<X>(
    g: Set<(X, X)>,
    r: Seq<X>,
    m: int,
    a: int,
    q: Seq<X>,
    n: int,
    b: int,
    urgency: spec_fn(X) -> int,
)
    requires
        is_schedule(g, r, m, urgency),
        is_schedule(g, q, n, urgency),
        forall|x: X| #[trigger] r.contains(x) <==> q.contains(x),
        0 <= a < m,
        0 <= b < n,
        r[a] == q[b],
    ensures
        level(g, r, a) == level(g, q, b),
    decreases a,
{
    law_level(g, r, m, urgency, a);
    law_level(g, q, n, urgency, b);
    assert forall|i: int, k: int|
        0 <= i < a && 0 <= k < b && r[i] == q[k] && #[trigger] g.contains((r[i], r[a]))
            && #[trigger] g.contains((q[k], q[b])) implies level(g, r, i) == level(g, q, k) by {
        law_level_of_graph(g, r, m, i, q, n, k, urgency);
    }
    if level(g, r, a) != 0 {
        let i = choose|i: int|
            0 <= i < m && #[trigger] g.contains((r[i], r[a])) && level(g, r, a) == level(g, r, i)
                + 1;
        assert(r.contains(r[i]));
        let k = choose|k: int| 0 <= k < q.len() && q[k] == r[i];
        assert(g.contains((q[k], q[b])));
        assert(level(g, r, i) == level(g, q, k));
    }
    if level(g, q, b) != 0 {
        let k = choose|k: int|
            0 <= k < n && #[trigger] g.contains((q[k], q[b])) && level(g, q, b) == level(g, q, k)
                + 1;
        assert(q.contains(q[k]));
        assert(r.contains(q[k]));
        let i = choose|i: int| 0 <= i < r.len() && r[i] == q[k];
        assert(g.contains((r[i], r[a])));
        assert(level(g, r, i) == level(g, q, k));
    }
}

/// Levels never fall from one place to the next, and on one level urgency values never do.
pub proof fn law_levels_in_order<X>(
    g: Set<(X, X)>,
    r: Seq<X>,
    m: int,
    urgency: spec_fn(X) -> int,
    a: int,
    b: int,
)
    requires
        is_schedule(g, r, m, urgency),
        0 <= a < b < m,
    ensures
        level(g, r, a) <= level(g, r, b),
        level(g, r, a) == level(g, r, b) ==> urgency(r[a]) <= urgency(r[b]),
{
    assert(in_turn(g, r, a, b, urgency));
}

/// Which arcs a list of blockers gives, and how urgent a place in a list is.
pub proof fn law_blocker_arcs(blockers: Seq<Vec<usize>>, urgency: Seq<u8>, u: usize, v: usize)
    ensures
        blocker_arcs(blockers).contains((u, v)) <==> v < blockers.len() && blockers[v as int]@.contains(
            u,
        ),
        v < urgency.len() ==> urgency_of(urgency)(v) == urgency[v as int],
{
}

} // verus!

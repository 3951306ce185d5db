//! Directed graphs: walks, reachability and cycles.

use vstd::prelude::*;

verus! {

/// Whether node `i` of `w` is joined to the next one by an arc of `g`.
pub open spec fn joined_at<A>(g: Set<(A, A)>, w: Seq<A>, i: int) -> bool {
    g.contains((w[i], w[i + 1]))
}

/// Whether each node of `w` is joined to the next one by an arc of `g`.
pub open spec fn is_walk<A>(g: Set<(A, A)>, w: Seq<A>) -> bool {
    &&& w.len() >= 1
    &&& forall|i: int| 0 <= i < w.len() - 1 ==> #[trigger] joined_at(g, w, i)
}

/// Whether `w` is a walk from `a` to `b`.
pub open spec fn walk_between<A>(g: Set<(A, A)>, w: Seq<A>, a: A, b: A) -> bool {
    is_walk(g, w) && w[0] == a && w.last() == b
}

/// Whether there is a walk from `a` to `b`. Every node reaches itself.
pub open spec fn reaches<A>(g: Set<(A, A)>, a: A, b: A) -> bool {
    exists|w: Seq<A>| walk_between(g, w, a, b)
}

/// Whether no walk leads from a node back to it.
pub open spec fn acyclic<A>(g: Set<(A, A)>) -> bool {
    forall|w: Seq<A>| #[trigger] is_walk(g, w) && w.len() >= 2 ==> w[0] != w.last()
}

/// Every node reaches itself.
pub proof fn lemma_reaches_self<A>(g: Set<(A, A)>, a: A)
    ensures
        reaches(g, a, a),
{
    assert(walk_between(g, seq![a], a, a));
}

/// A node reaches what the nodes that it reaches are joined to.
pub proof fn lemma_reaches_step<A>(g: Set<(A, A)>, a: A, b: A, c: A)
    requires
        reaches(g, a, b),
        g.contains((b, c)),
    ensures
        reaches(g, a, c),
{
    let w = choose|w: Seq<A>| walk_between(g, w, a, b);
    let v = w.push(c);
    assert forall|i: int| 0 <= i < v.len() - 1 implies #[trigger] joined_at(g, v, i) by {
        if i < w.len() - 1 {
            assert(joined_at(g, w, i));
        }
    }
    assert(walk_between(g, v, a, c));
}

/// Two walks, the second from where the first ends, make one.
pub proof fn lemma_join_walks<A>(g: Set<(A, A)>, v: Seq<A>, w: Seq<A>)
    requires
        is_walk(g, v),
        is_walk(g, w),
        v.last() == w[0],
    ensures
        walk_between(g, v + w.drop_first(), v[0], w.last()),
{
    let u = v + w.drop_first();
    assert forall|i: int| 0 <= i < u.len() - 1 implies #[trigger] joined_at(g, u, i) by {
        if i < v.len() - 1 {
            assert(joined_at(g, v, i));
        } else {
            let j = i - v.len() + 1;
            assert(joined_at(g, w, j));
            assert(u[i] == w[j] && u[i + 1] == w[j + 1]);
        }
    }
    assert(u.last() == w.last());
}

/// Reaching carries over.
pub proof fn lemma_reaches_trans<A>(g: Set<(A, A)>, a: A, b: A, c: A)
    requires
        reaches(g, a, b),
        reaches(g, b, c),
    ensures
        reaches(g, a, c),
{
    let v = choose|w: Seq<A>| walk_between(g, w, a, b);
    let w = choose|w: Seq<A>| walk_between(g, w, b, c);
    lemma_join_walks(g, v, w);
}

/// A part of a walk is a walk.
pub proof fn lemma_part_of_walk<A>(g: Set<(A, A)>, w: Seq<A>, i: int, j: int)
    requires
        is_walk(g, w),
        0 <= i < j <= w.len(),
    ensures
        is_walk(g, w.subrange(i, j)),
{
    let v = w.subrange(i, j);
    assert forall|k: int| 0 <= k < v.len() - 1 implies #[trigger] joined_at(g, v, k) by {
        assert(joined_at(g, w, k + i));
    }
}

/// A walk in a larger graph.
pub proof fn lemma_walk_monotone<A>(g: Set<(A, A)>, h: Set<(A, A)>, w: Seq<A>)
    requires
        is_walk(g, w),
        g.subset_of(h),
    ensures
        is_walk(h, w),
{
    assert forall|i: int| 0 <= i < w.len() - 1 implies #[trigger] joined_at(h, w, i) by {
        assert(joined_at(g, w, i));
    }
}

/// A graph inside an acyclic one is acyclic.
pub proof fn law_acyclic_subgraph<A>(g: Set<(A, A)>, h: Set<(A, A)>)
    requires
        acyclic(h),
        g.subset_of(h),
    ensures
        acyclic(g),
{
    assert forall|w: Seq<A>| #[trigger] is_walk(g, w) && w.len() >= 2 implies w[0] != w.last() by {
        lemma_walk_monotone(g, h, w);
    }
}

/// A walk from `dst` to `src` that may use the arc from `src` to `dst` can do without it.
proof fn lemma_without_arc<A>(g: Set<(A, A)>, src: A, dst: A, w: Seq<A>)
    requires
        walk_between(g.insert((src, dst)), w, dst, src),
    ensures
        reaches(g, dst, src),
    decreases w.len(),
{
    let h = g.insert((src, dst));
    if forall|i: int| 0 <= i < w.len() - 1 ==> #[trigger] joined_at(g, w, i) {
        assert(walk_between(g, w, dst, src));
    } else {
        let i = choose|i: int|
            0 <= i < w.len() - 1 && !#[trigger] joined_at(g, w, i);
        assert(joined_at(h, w, i));
        let v = w.subrange(i + 1, w.len() as int);
        lemma_part_of_walk(h, w, i + 1, w.len() as int);
        assert(v[0] == dst);
        lemma_without_arc(g, src, dst, v);
    }
}

/// A new arc closes a cycle exactly if its end already reaches its start.
pub proof fn law_new_arc_closes_cycle<A>(g: Set<(A, A)>, src: A, dst: A)
    requires
        acyclic(g),
    ensures
        acyclic(g.insert((src, dst))) <==> !reaches(g, dst, src),
{
    let h = g.insert((src, dst));
    if reaches(g, dst, src) {
        let w = choose|w: Seq<A>| walk_between(g, w, dst, src);
        let v = seq![src] + w;
        assert forall|i: int| 0 <= i < v.len() - 1 implies #[trigger] joined_at(h, v, i) by {
            if i > 0 {
                assert(joined_at(g, w, i - 1));
            }
        }
        assert(is_walk(h, v));
        assert(v.last() == src);
    } else {
        assert forall|w: Seq<A>| #[trigger] is_walk(h, w) && w.len() >= 2 implies w[0]
            != w.last() by {
            if w[0] == w.last() {
                if is_walk(g, w) {
                    assert(false);
                }
                let i = choose|i: int|
                    0 <= i < w.len() - 1 && !#[trigger] joined_at(g, w, i);
                assert(joined_at(h, w, i));
                let tail = w.subrange(i + 1, w.len() as int);
                let front = w.subrange(0, i + 1);
                lemma_part_of_walk(h, w, i + 1, w.len() as int);
                lemma_part_of_walk(h, w, 0, i + 1);
                lemma_join_walks(h, tail, front);
                let round = tail + front.drop_first();
                assert(round[0] == dst);
                assert(round.last() == src);
                lemma_without_arc(g, src, dst, round);
            }
        }
    }
}

/// Where each of finitely many nodes has an arc from another one of them, there is a cycle
/// among them.
pub proof fn lemma_no_source_is_cyclic<A>(g: Set<(A, A)>, s: Set<A>, start: A)
    requires
        s.finite(),
        s.contains(start),
        forall|x: A| #[trigger]
            s.contains(x) ==> exists|y: A| s.contains(y) && #[trigger] g.contains((y, x)),
    ensures
        !acyclic(g),
{
    let w = lemma_walk_back(g, s, start, s.len() + 1);
    if w.no_duplicates() {
        w.unique_seq_to_set();
        assert(w.to_set().subset_of(s)) by {
            assert forall|x: A| w.to_set().contains(x) implies s.contains(x) by {
                let i = choose|i: int| 0 <= i < w.len() && w[i] == x;
                assert(s.contains(w[i]));
            }
        }
        vstd::set_lib::lemma_len_subset(w.to_set(), s);
    } else {
        let (i, j) = choose|i: int, j: int|
            0 <= i < w.len() && 0 <= j < w.len() && i != j && w[i] == w[j];
        let (a, b) = if i < j {
            (i, j)
        } else {
            (j, i)
        };
        lemma_part_of_walk(g, w, a, b + 1);
        let v = w.subrange(a, b + 1);
        assert(v[0] == v.last());
    }
}

/// A walk of `n` nodes among those that all have an arc from another one.
proof fn lemma_walk_back<A>(g: Set<(A, A)>, s: Set<A>, start: A, n: nat) -> (w: Seq<A>)
    requires
        n >= 1,
        s.contains(start),
        forall|x: A| #[trigger]
            s.contains(x) ==> exists|y: A| s.contains(y) && #[trigger] g.contains((y, x)),
    ensures
        is_walk(g, w),
        w.len() == n,
        forall|i: int| 0 <= i < w.len() ==> s.contains(#[trigger] w[i]),
    decreases n,
{
    if n == 1 {
        seq![start]
    } else {
        let v = lemma_walk_back(g, s, start, (n - 1) as nat);
        assert(s.contains(v[0]));
        let y = choose|y: A| s.contains(y) && #[trigger] g.contains((y, v[0]));
        let w = seq![y] + v;
        assert forall|i: int| 0 <= i < w.len() - 1 implies #[trigger] joined_at(g, w, i) by {
            if i > 0 {
                assert(joined_at(g, v, i - 1));
            }
        }
        assert forall|i: int| 0 <= i < w.len() implies s.contains(#[trigger] w[i]) by {
            if i > 0 {
                assert(w[i] == v[i - 1]);
            }
        }
        w
    }
}

/// A node reaches itself, what an arc leads to from it, and what is reached from there; and it
/// reaches nothing else.
pub proof fn law_reaches<A>(g: Set<(A, A)>, a: A, b: A)
    ensures
        reaches(g, a, a),
        g.contains((a, b)) ==> reaches(g, a, b),
        forall|c: A| g.contains((a, c)) && #[trigger] reaches(g, c, b) ==> reaches(g, a, b),
        reaches(g, a, b) && a != b ==> exists|c: A|
            g.contains((a, c)) && #[trigger] reaches(g, c, b),
{
    lemma_reaches_self(g, a);
    if g.contains((a, b)) {
        lemma_reaches_step(g, a, a, b);
    }
    assert forall|c: A| g.contains((a, c)) && #[trigger] reaches(g, c, b) implies reaches(
        g,
        a,
        b,
    ) by {
        lemma_reaches_step(g, a, a, c);
        lemma_reaches_trans(g, a, c, b);
    }
    if reaches(g, a, b) && a != b {
        let w = choose|w: Seq<A>| walk_between(g, w, a, b);
        assert(joined_at(g, w, 0));
        lemma_part_of_walk(g, w, 1, w.len() as int);
        let rest = w.subrange(1, w.len() as int);
        assert(walk_between(g, rest, w[1], b));
        assert(reaches(g, w[1], b));
    }
}

/// In a graph without a cycle no node is reached again from what an arc leads to from it.
pub proof fn law_acyclic<A>(g: Set<(A, A)>)
    ensures
        acyclic(g) <==> forall|a: A, b: A| g.contains((a, b)) ==> !#[trigger] reaches(g, b, a),
{
    if acyclic(g) {
        assert forall|a: A, b: A| g.contains((a, b)) implies !#[trigger] reaches(g, b, a) by {
            if reaches(g, b, a) {
                let w = choose|w: Seq<A>| walk_between(g, w, b, a);
                let v = seq![a] + w;
                assert forall|i: int| 0 <= i < v.len() - 1 implies #[trigger] joined_at(
                    g,
                    v,
                    i,
                ) by {
                    if i > 0 {
                        assert(joined_at(g, w, i - 1));
                    }
                }
                assert(is_walk(g, v));
                assert(v[0] == v.last());
            }
        }
    }
    if forall|a: A, b: A| g.contains((a, b)) ==> !#[trigger] reaches(g, b, a) {
        assert forall|w: Seq<A>| #[trigger] is_walk(g, w) && w.len() >= 2 implies w[0]
            != w.last() by {
            assert(joined_at(g, w, 0));
            lemma_part_of_walk(g, w, 1, w.len() as int);
            let rest = w.subrange(1, w.len() as int);
            assert(walk_between(g, rest, w[1], w.last()));
            assert(reaches(g, w[1], w.last()));
        }
    }
}

} // verus!

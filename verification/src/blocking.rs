//! The graph of blocking dependencies: who has to be done before whom.

use vstd::prelude::*;

use crate::dep::{DepEdge, DepEdgeView};
use crate::graph::{
    is_walk, joined_at, lemma_reaches_self, lemma_reaches_step, reaches, walk_between,
};
use crate::id::OrbId;
use crate::log::views;

verus! {

/// The two orbs of a blocking edge: the first has to be done before the second.
pub open spec fn arc(e: DepEdgeView) -> (Seq<char>, Seq<char>) {
    if e.edge_type is DependsOn {
        (e.to, e.from)
    } else {
        (e.from, e.to)
    }
}

/// The arcs of the blocking edges.
pub open spec fn blocking_graph(edges: Seq<DepEdgeView>) -> Set<(Seq<char>, Seq<char>)> {
    Set::new(
        |p: (Seq<char>, Seq<char>)|
            exists|i: int|
                0 <= i < edges.len() && (#[trigger] edges[i]).edge_type.blocks() && arc(edges[i])
                    == p,
    )
}

/// The orb that a blocking edge puts first.
pub fn arc_source(e: &DepEdge) -> (id: &OrbId)
    ensures
        id@ == arc(e@).0,
{
    if matches!(e.edge_type, crate::dep::EdgeType::DependsOn) {
        &e.to
    } else {
        &e.from
    }
}

/// The orb that a blocking edge puts second.
pub fn arc_target(e: &DepEdge) -> (id: &OrbId)
    ensures
        id@ == arc(e@).1,
{
    if matches!(e.edge_type, crate::dep::EdgeType::DependsOn) {
        &e.from
    } else {
        &e.to
    }
}

/// The place of an identifier in a list.
pub fn position(ids: &Vec<OrbId>, id: &OrbId) -> (r: Option<usize>)
    ensures
        match r {
            Some(i) => i < ids@.len() && views(ids@)[i as int] == id@,
            None => !views(ids@).contains(id@),
        },
{
    let mut i: usize = 0;
    while i < ids.len()
        invariant
            i <= ids@.len(),
            forall|j: int| 0 <= j < i ==> (#[trigger] views(ids@)[j]) != id@,
        decreases ids@.len() - i,
    {
        if ids[i] == *id {
            return Some(i);
        }
        i += 1;
    }
    None
}

/// The orbs that can be reached from one, nearest first, each with the place of the orb
/// through which it was found and its distance.
pub struct Reached {
    pub order: Vec<OrbId>,
    pub parent: Vec<usize>,
    pub level: Vec<usize>,
}

impl Reached {
    /// Whether the fields fit together and the first `head` orbs have all their successors.
    pub open spec fn is_search(
        self,
        g: Set<(Seq<char>, Seq<char>)>,
        start: Seq<char>,
        head: int,
    ) -> bool {
        let o = views(self.order@);
        &&& o.len() >= 1
        &&& self.parent@.len() == o.len()
        &&& self.level@.len() == o.len()
        &&& o[0] == start
        &&& self.level@[0] == 0
        &&& o.no_duplicates()
        &&& forall|k: int|
            1 <= k < o.len() ==> {
                &&& (#[trigger] self.parent@[k]) < k
                &&& g.contains((o[self.parent@[k] as int], o[k]))
                &&& self.level@[k] == self.level@[self.parent@[k] as int] + 1
            }
        &&& forall|k: int| 0 <= k < o.len() ==> (#[trigger] self.level@[k]) <= k
        &&& forall|k: int, l: int|
            0 <= k <= l < o.len() ==> (#[trigger] self.level@[k]) <= (#[trigger] self.level@[l])
        &&& forall|k: int, n: Seq<char>|
            0 <= k < head && #[trigger] g.contains((o[k], n)) ==> self.has_within(
                n,
                self.level@[k] + 1,
            )
    }

    /// Whether the orb was found at a distance of at most `d`.
    pub open spec fn has_within(self, n: Seq<char>, d: int) -> bool {
        exists|l: int|
            0 <= l < self.order@.len() && #[trigger] views(self.order@)[l] == n && self.level@[l]
                <= d
    }

    /// Whether the search is complete.
    pub open spec fn is_complete(self, g: Set<(Seq<char>, Seq<char>)>, start: Seq<char>) -> bool {
        self.is_search(g, start, self.order@.len() as int)
    }

    /// Every orb in the list can be reached.
    pub proof fn lemma_sound(self, g: Set<(Seq<char>, Seq<char>)>, start: Seq<char>, k: int)
        requires
            self.is_complete(g, start),
            0 <= k < self.order@.len(),
        ensures
            reaches(g, start, views(self.order@)[k]),
        decreases k,
    {
        let o = views(self.order@);
        if k == 0 {
            lemma_reaches_self(g, start);
        } else {
            let p = self.parent@[k] as int;
            self.lemma_sound(g, start, p);
            lemma_reaches_step(g, start, o[p], o[k]);
        }
    }

    /// Whatever can be reached is in the list, at a distance no longer than any walk to it.
    pub proof fn lemma_nearest(self, g: Set<(Seq<char>, Seq<char>)>, start: Seq<char>, w: Seq<
        Seq<char>,
    >)
        requires
            self.is_complete(g, start),
            is_walk(g, w),
            w[0] == start,
        ensures
            self.has_within(w.last(), w.len() - 1),
        decreases w.len(),
    {
        let o = views(self.order@);
        if w.len() == 1 {
            assert(o[0] == w.last());
        } else {
            let v = w.drop_last();
            assert forall|i: int| 0 <= i < v.len() - 1 implies #[trigger] joined_at(g, v, i) by {
                assert(joined_at(g, w, i));
            }
            self.lemma_nearest(g, start, v);
            let l = choose|l: int|
                0 <= l < o.len() && #[trigger] o[l] == v.last() && self.level@[l] <= v.len() - 1;
            assert(joined_at(g, w, w.len() - 2));
            assert(g.contains((o[l], w.last())));
            assert(self.has_within(w.last(), self.level@[l] + 1));
        }
    }

    /// The list holds exactly what can be reached.
    pub proof fn lemma_exact(self, g: Set<(Seq<char>, Seq<char>)>, start: Seq<char>, n: Seq<char>)
        requires
            self.is_complete(g, start),
        ensures
            views(self.order@).contains(n) <==> reaches(g, start, n),
    {
        let o = views(self.order@);
        if o.contains(n) {
            let k = choose|k: int| 0 <= k < o.len() && o[k] == n;
            self.lemma_sound(g, start, k);
        }
        if reaches(g, start, n) {
            let w = choose|w: Seq<Seq<char>>| walk_between(g, w, start, n);
            self.lemma_nearest(g, start, w);
        }
    }
}

/// A list of different orbs, all but the first the targets of different edges, is no longer
/// than one more than the number of edges.
proof fn lemma_bounded(used: Set<int>, n: int)
    requires
        used.finite(),
        n >= 0,
        forall|j: int| used.contains(j) ==> 0 <= j < n,
    ensures
        used.len() <= n,
{
    let range = vstd::set_lib::set_int_range(0, n);
    vstd::set_lib::lemma_int_range(0, n);
    assert(used.subset_of(range));
    vstd::set_lib::lemma_len_subset(used, range);
}

/// Searches the blocking graph from `start`, nearest orbs first.
#[verifier::rlimit(40)]
pub fn explore(edges: &Vec<DepEdge>, start: &OrbId) -> (r: Reached)
    ensures
        r.is_complete(blocking_graph(views(edges@)), start@),
{
    let ghost es = views(edges@);
    let ghost g = blocking_graph(es);
    let mut order: Vec<OrbId> = Vec::new();
    order.push(start.clone());
    let mut parent: Vec<usize> = Vec::new();
    parent.push(0);
    let mut level: Vec<usize> = Vec::new();
    level.push(0);
    let mut r = Reached { order, parent, level };
    let ghost mut used: Set<int> = Set::empty();
    let mut head: usize = 0;
    let count: usize = edges.len();
    while head < r.order.len()
        invariant
            es == views(edges@),
            count == edges@.len(),
            g == blocking_graph(es),
            r.is_search(g, start@, head as int),
            head <= r.order@.len(),
            head < r.order@.len() ==> forall|k: int|
                0 <= k < r.order@.len() ==> #[trigger] r.level@[k] <= r.level@[head as int] + 1,
            used.finite(),
            used.len() == r.order@.len() - 1,
            forall|j: int| #[trigger]
                used.contains(j) ==> 0 <= j < count && views(r.order@).contains(arc(es[j]).1),
        decreases count + 1 - head,
    {
        proof {
            lemma_bounded(used, count as int);
        }
        let mut j: usize = 0;
        while j < edges.len()
            invariant
                es == views(edges@),
                count == edges@.len(),
                j <= count,
                g == blocking_graph(es),
                r.is_search(g, start@, head as int),
                head < r.order@.len(),
                forall|k: int|
                    0 <= k < r.order@.len() ==> #[trigger] r.level@[k] <= r.level@[head as int] + 1,
                used.finite(),
                used.len() == r.order@.len() - 1,
                forall|j: int| #[trigger]
                    used.contains(j) ==> 0 <= j < count && views(r.order@).contains(arc(es[j]).1),
                forall|i: int|
                    0 <= i < j && (#[trigger] es[i]).edge_type.blocks() && arc(es[i]).0 == views(
                        r.order@,
                    )[head as int] ==> r.has_within(arc(es[i]).1, r.level@[head as int] + 1),
            decreases count - j,
        {
            let e = &edges[j];
            assert(es[j as int] == e@);
            if e.edge_type.is_blocking() && *arc_source(e) == r.order[head] {
                let target = arc_target(e);
                match position(&r.order, target) {
                    Some(l) => {
                        assert(views(r.order@)[l as int] == arc(e@).1);
                        assert(r.has_within(arc(e@).1, r.level@[head as int] + 1));
                    },
                    None => {
                        let ghost before = r;
                        let ghost o = views(r.order@);
                        let found: usize = r.order.len();
                        assert(r.level@[head as int] <= head < found);
                        let next: usize = r.level[head] + 1;
                        r.order.push(target.clone());
                        r.parent.push(head);
                        r.level.push(next);
                        proof {
                            assert(views(r.order@) =~= o.push(arc(e@).1));
                            assert(g.contains(arc(es[j as int])));
                            if used.contains(j as int) {
                                assert(o.contains(arc(es[j as int]).1));
                            }
                            used = used.insert(j as int);
                            lemma_extended(before, r, g, start@, head as int, arc(e@).1);
                            assert forall|i: int| #[trigger] used.contains(i) implies 0 <= i < count
                                && views(r.order@).contains(arc(es[i]).1) by {
                                if i != j {
                                    let l = choose|l: int| 0 <= l < o.len() && o[l] == arc(es[i]).1;
                                    assert(views(r.order@)[l] == arc(es[i]).1);
                                } else {
                                    assert(views(r.order@)[o.len() as int] == arc(es[i]).1);
                                }
                            }
                            assert forall|i: int|
                                0 <= i < j + 1 && (#[trigger] es[i]).edge_type.blocks() && arc(
                                    es[i],
                                ).0 == views(r.order@)[head as int] implies r.has_within(
                                arc(es[i]).1,
                                r.level@[head as int] + 1,
                            ) by {
                                if i < j {
                                    assert(before.has_within(
                                        arc(es[i]).1,
                                        before.level@[head as int] + 1,
                                    ));
                                    lemma_still_within(
                                        before,
                                        r,
                                        arc(es[i]).1,
                                        before.level@[head as int] + 1,
                                    );
                                } else {
                                    assert(views(r.order@)[o.len() as int] == arc(es[i]).1);
                                }
                            }
                        }
                    },
                }
            }
            j += 1;
        }
        proof {
            let o = views(r.order@);
            assert forall|k: int, n: Seq<char>|
                0 <= k < head + 1 && #[trigger] g.contains((o[k], n)) implies r.has_within(
                n,
                r.level@[k] + 1,
            ) by {
                if k == head {
                    let i = choose|i: int|
                        0 <= i < es.len() && (#[trigger] es[i]).edge_type.blocks() && arc(es[i]) == (
                        o[k],
                        n,
                    );
                    assert(arc(es[i]).0 == o[head as int]);
                }
            }
            lemma_bounded(used, count as int);
        }
        head += 1;
    }
    r
}

/// What was found within a distance is still found after one more orb is.
proof fn lemma_still_within(a: Reached, b: Reached, n: Seq<char>, d: int)
    requires
        a.has_within(n, d),
        a.level@.len() == a.order@.len(),
        views(b.order@).len() == views(a.order@).len() + 1,
        b.level@.len() == b.order@.len(),
        forall|k: int| 0 <= k < a.order@.len() ==> views(b.order@)[k] == #[trigger] views(a.order@)[k],
        forall|k: int| 0 <= k < a.order@.len() ==> b.level@[k] == #[trigger] a.level@[k],
    ensures
        b.has_within(n, d),
{
    let l = choose|l: int|
        0 <= l < a.order@.len() && #[trigger] views(a.order@)[l] == n && a.level@[l] <= d;
    assert(views(b.order@)[l] == n);
    assert(b.level@[l] == a.level@[l]);
}

/// One more orb, found through the orb at `head`, keeps the search in order.
proof fn lemma_extended(
    a: Reached,
    b: Reached,
    g: Set<(Seq<char>, Seq<char>)>,
    start: Seq<char>,
    head: int,
    n: Seq<char>,
)
    requires
        a.is_search(g, start, head),
        0 <= head < a.order@.len(),
        forall|k: int| 0 <= k < a.order@.len() ==> #[trigger] a.level@[k] <= a.level@[head] + 1,
        !views(a.order@).contains(n),
        g.contains((views(a.order@)[head], n)),
        views(b.order@) == views(a.order@).push(n),
        b.parent@.len() == b.order@.len(),
        b.level@.len() == b.order@.len(),
        b.parent@ == a.parent@.push(head as usize),
        head <= usize::MAX,
        b.level@ == a.level@.push((a.level@[head] + 1) as usize),
        a.level@[head] + 1 <= usize::MAX,
    ensures
        b.is_search(g, start, head),
        forall|k: int| 0 <= k < b.order@.len() ==> #[trigger] b.level@[k] <= b.level@[head] + 1,
{
    let o = views(a.order@);
    let q = views(b.order@);
    assert(q.no_duplicates()) by {
        assert forall|i: int, j: int| 0 <= i < q.len() && 0 <= j < q.len() && i != j implies q[i]
            != q[j] by {
            if i == o.len() {
                assert(q[j] == o[j]);
            } else if j == o.len() {
                assert(q[i] == o[i]);
            }
        }
    }
    assert(a.level@[head] <= head);
    assert forall|k: int, m: Seq<char>|
        0 <= k < head && #[trigger] g.contains((q[k], m)) implies b.has_within(
        m,
        b.level@[k] + 1,
    ) by {
        assert(q[k] == o[k]);
        assert(g.contains((o[k], m)));
        assert(b.level@[k] == a.level@[k]);
        lemma_still_within(a, b, m, a.level@[k] + 1);
    }
    assert forall|k: int| 1 <= k < q.len() implies {
        &&& (#[trigger] b.parent@[k]) < k
        &&& g.contains((q[b.parent@[k] as int], q[k]))
        &&& b.level@[k] == b.level@[b.parent@[k] as int] + 1
    } by {
        if k < o.len() {
            assert(b.parent@[k] == a.parent@[k]);
            assert(q[k] == o[k]);
        }
    }
}

/// Whether `c` is a shortest cycle that an arc from `src` to `dst` would close: it leads
/// from `src` over that arc to `dst` and from there back to `src`.
pub open spec fn is_shortest_cycle(
    g: Set<(Seq<char>, Seq<char>)>,
    src: Seq<char>,
    dst: Seq<char>,
    c: Seq<Seq<char>>,
) -> bool {
    &&& c.len() >= 2
    &&& c[0] == src
    &&& walk_between(g, c.drop_first(), dst, src)
    &&& forall|w: Seq<Seq<char>>| #[trigger]
        walk_between(g, w, dst, src) ==> c.len() <= w.len() + 1
}

/// Whether node `i` of `p` is joined to the one before it on the way by an arc of `g`.
spec fn joined_back<A>(g: Set<(A, A)>, p: Seq<A>, i: int) -> bool {
    g.contains((p[i + 1], p[i]))
}

/// The nodes from the one at `k` back to the start of the search, reversed.
fn trace_back(r: &Reached, k: usize, g: Ghost<Set<(Seq<char>, Seq<char>)>>, start: Ghost<
    Seq<char>,
>) -> (path: Vec<OrbId>)
    requires
        r.is_complete(g@, start@),
        k < r.order@.len(),
    ensures
        walk_between(g@, views(path@).reverse(), start@, views(r.order@)[k as int]),
        path@.len() == r.level@[k as int] + 1,
{
    let ghost o = views(r.order@);
    let mut path: Vec<OrbId> = Vec::new();
    path.push(r.order[k].clone());
    let mut node: usize = k;
    while node > 0
        invariant
            r.is_complete(g@, start@),
            o == views(r.order@),
            k < o.len(),
            node <= k,
            path@.len() >= 1,
            views(path@)[0] == o[k as int],
            views(path@).last() == o[node as int],
            path@.len() + r.level@[node as int] == r.level@[k as int] + 1,
            forall|i: int|
                0 <= i < path@.len() - 1 ==> #[trigger] joined_back(g@, views(path@), i),
        decreases node,
    {
        let ghost before = views(path@);
        let up: usize = r.parent[node];
        path.push(r.order[up].clone());
        assert(views(path@) =~= before.push(o[up as int]));
        assert forall|i: int| 0 <= i < path@.len() - 1 implies #[trigger] joined_back(
            g@,
            views(path@),
            i,
        ) by {
            if i < before.len() - 1 {
                assert(joined_back(g@, before, i));
            }
        }
        node = up;
    }
    proof {
        assert(r.level@[0] == 0);
        let p = views(path@);
        let w = p.reverse();
        assert forall|i: int| 0 <= i < w.len() - 1 implies #[trigger] joined_at(g@, w, i) by {
            let j = p.len() - 2 - i;
            assert(joined_back(g@, p, j));
            assert(w[i] == p[j + 1]);
            assert(w[i + 1] == p[j]);
        }
    }
    path
}

/// A shortest cycle that an arc from `src` to `dst` would close, if it would close one.
pub fn find_cycle(edges: &Vec<DepEdge>, src: &OrbId, dst: &OrbId) -> (r: Option<Vec<OrbId>>)
    ensures
        match r {
            Some(c) => reaches(blocking_graph(views(edges@)), dst@, src@) && is_shortest_cycle(
                blocking_graph(views(edges@)),
                src@,
                dst@,
                views(c@),
            ),
            None => !reaches(blocking_graph(views(edges@)), dst@, src@),
        },
{
    let ghost g = blocking_graph(views(edges@));
    let reached = explore(edges, dst);
    proof {
        reached.lemma_exact(g, dst@, src@);
    }
    match position(&reached.order, src) {
        None => None,
        Some(k) => {
            let path = trace_back(&reached, k, Ghost(g), Ghost(dst@));
            let mut cycle: Vec<OrbId> = Vec::new();
            cycle.push(src.clone());
            let mut i: usize = path.len();
            while i > 0
                invariant
                    i <= path@.len(),
                    views(cycle@) == seq![src@] + views(path@).skip(i as int).reverse(),
                decreases i,
            {
                let ghost before = views(cycle@);
                i -= 1;
                cycle.push(path[i].clone());
                proof {
                    let tail = views(path@).skip(i as int);
                    assert(tail.reverse() =~= views(path@).skip(i + 1).reverse().push(
                        views(path@)[i as int],
                    ));
                    assert(views(cycle@) =~= before.push(views(path@)[i as int]));
                }
            }
            proof {
                let c = views(cycle@);
                assert(views(path@).skip(0) =~= views(path@));
                assert(c.drop_first() =~= views(path@).reverse());
                assert(reaches(g, dst@, src@)) by {
                    assert(views(reached.order@).contains(views(reached.order@)[k as int]));
                }
                assert forall|w: Seq<Seq<char>>| #[trigger]
                    walk_between(g, w, dst@, src@) implies c.len() <= w.len() + 1 by {
                    reached.lemma_nearest(g, dst@, w);
                    let l = choose|l: int|
                        0 <= l < reached.order@.len() && #[trigger] views(reached.order@)[l]
                            == src@ && reached.level@[l] <= w.len() - 1;
                    assert(l == k);
                }
            }
            Some(cycle)
        },
    }
}

/// Of an edge that blocks, the orb that it starts at has to be done first; of one that tells of a
/// dependency, the orb that it leads to.
pub proof fn law_arc(e: DepEdgeView)
    ensures
        e.edge_type == crate::dep::EdgeType::Blocks ==> arc(e) == (e.from, e.to),
        e.edge_type == crate::dep::EdgeType::DependsOn ==> arc(e) == (e.to, e.from),
{
}

/// One orb has to be done before another exactly if an edge says that it blocks the other, or
/// that the other depends on it.
pub proof fn law_blocking_graph(edges: Seq<DepEdgeView>, a: Seq<char>, b: Seq<char>)
    ensures
        blocking_graph(edges).contains((a, b)) <==> exists|i: int|
            0 <= i < edges.len() && {
                ||| (#[trigger] edges[i]).edge_type == crate::dep::EdgeType::Blocks && edges[i].from
                    == a && edges[i].to == b
                ||| edges[i].edge_type == crate::dep::EdgeType::DependsOn && edges[i].from == b
                    && edges[i].to == a
            },
{
    let g = blocking_graph(edges);
    if g.contains((a, b)) {
        let i = choose|i: int|
            0 <= i < edges.len() && (#[trigger] edges[i]).edge_type.blocks() && arc(edges[i]) == (
                a,
                b,
            );
        assert(edges[i].edge_type.blocks());
    }
    if exists|i: int|
        0 <= i < edges.len() && {
            ||| (#[trigger] edges[i]).edge_type == crate::dep::EdgeType::Blocks && edges[i].from == a
                && edges[i].to == b
            ||| edges[i].edge_type == crate::dep::EdgeType::DependsOn && edges[i].from == b
                && edges[i].to == a
        } {
        let i = choose|i: int|
            0 <= i < edges.len() && {
                ||| (#[trigger] edges[i]).edge_type == crate::dep::EdgeType::Blocks && edges[i].from
                    == a && edges[i].to == b
                ||| edges[i].edge_type == crate::dep::EdgeType::DependsOn && edges[i].from == b
                    && edges[i].to == a
            };
        assert(edges[i].edge_type.blocks() && arc(edges[i]) == (a, b));
    }
}

/// A cycle starts and ends with the source of the arc, has its target behind it, goes over arcs
/// from there on, and no way back over arcs is shorter.
pub proof fn law_shortest_cycle(
    g: Set<(Seq<char>, Seq<char>)>,
    src: Seq<char>,
    dst: Seq<char>,
    c: Seq<Seq<char>>,
    w: Seq<Seq<char>>,
)
    requires
        is_shortest_cycle(g, src, dst, c),
    ensures
        c.len() >= 2,
        c[0] == src,
        c[1] == dst,
        c.last() == src,
        forall|i: int| 1 <= i < c.len() - 1 ==> g.contains((#[trigger] c[i], c[i + 1])),
        w.len() > 0 && w[0] == dst && w.last() == src && (forall|i: int|
            0 <= i < w.len() - 1 ==> g.contains((#[trigger] w[i], w[i + 1]))) ==> c.len()
            <= w.len() + 1,
{
    let back = c.drop_first();
    assert(back[0] == c[1]);
    assert forall|i: int| 1 <= i < c.len() - 1 implies g.contains((#[trigger] c[i], c[i + 1])) by {
        assert(joined_at(g, back, i - 1));
    }
    if w.len() > 0 && w[0] == dst && w.last() == src && (forall|i: int|
        0 <= i < w.len() - 1 ==> g.contains((#[trigger] w[i], w[i + 1]))) {
        assert forall|i: int| 0 <= i < w.len() - 1 implies #[trigger] joined_at(g, w, i) by {
            assert(g.contains((w[i], w[i + 1])));
        }
        assert(walk_between(g, w, dst, src));
    }
}

} // verus!

//! The store of dependency edges, and the questions that scheduling asks of it.

use vstd::hash_map::StringHashMap;
use vstd::prelude::*;

use crate::blocking::{
    arc, arc_source, arc_target, blocking_graph, explore, find_cycle, is_shortest_cycle, position,
};
use crate::dep::{DepEdge, DepEdgeView, EdgeType};
use crate::graph::{acyclic, is_walk, law_acyclic_subgraph, law_new_arc_closes_cycle, reaches};
use crate::id::OrbId;
use crate::lists::{lemma_filter, lemma_filter_map_step};
use crate::log::{keep, latest, lemma_latest, load, loaded, views, Entry};
use crate::orb::{Orb, OrbView};
use crate::schedule::{
    blocker_arcs, blocked_from, in_bounds, in_turn, is_schedule, level, level_within, schedule,
    urgency_of,
};
use crate::task::TaskStatus;
use crate::text::joined;
use crate::time::{utc_now, Timestamp};

verus! {

/// Error type for dependency operations.
#[derive(Debug)]
pub enum DepError {
    /// Adding this edge would create a cycle in the dependency graph.
    CycleDetected {
        /// The path forming the cycle, from source back to source.
        cycle: Vec<OrbId>,
    },
    /// An IO error occurred.
    Io(String),
}

impl DepError {
    /// The text of the error.
    pub fn message(&self) -> (s: String)
        ensures
            match self {
                DepError::CycleDetected { cycle } => s@ == "cycle detected: "@ + joined(
                    views(cycle@),
                    " -> "@,
                ),
                DepError::Io(msg) => s@ == "io error: "@ + msg@,
            },
    {
        match self {
            DepError::CycleDetected { cycle } => {
                let mut s = String::new();
                s.append("cycle detected: ");
                let ghost ids = views(cycle@);
                let mut i: usize = 0;
                assert(s@ =~= "cycle detected: "@ + joined(ids.take(0), " -> "@));
                while i < cycle.len()
                    invariant
                        i <= cycle@.len(),
                        ids == views(cycle@),
                        s@ == "cycle detected: "@ + joined(ids.take(i as int), " -> "@),
                    decreases cycle@.len() - i,
                {
                    if i > 0 {
                        s.append(" -> ");
                    }
                    s.append(cycle[i].as_str());
                    i += 1;
                    proof {
                        let t = ids.take(i as int);
                        assert(t.drop_last() =~= ids.take(i - 1));
                        assert(s@ =~= "cycle detected: "@ + joined(t, " -> "@));
                    }
                }
                assert(ids.take(i as int) =~= ids);
                s
            },
            DepError::Io(msg) => {
                let mut s = String::new();
                s.append("io error: ");
                s.append(msg.as_str());
                assert(s@ =~= "io error: "@ + msg@);
                s
            },
        }
    }
}

/// Append-only store for dependency edges.
///
/// Each mutation (add or remove) is appended as a full record. Reading replays the log and
/// deduplicates by (from, to, `edge_type`), keeping the latest version.
pub struct DepStore {
    path: String,
    log: Vec<DepEdge>,
}

/// What a [`DepStore`] holds: the path of its file, and the records in the order in which
/// they were appended.
#[verifier::ext_equal]
pub struct DepStoreView {
    pub path: Seq<char>,
    pub log: Seq<DepEdgeView>,
}

impl View for DepStore {
    type V = DepStoreView;

    closed spec fn view(&self) -> DepStoreView {
        DepStoreView { path: self.path@, log: views(self.log@) }
    }
}

impl DepStoreView {
    /// The latest version of every edge that is not removed, in the order of first writing.
    pub open spec fn active(self) -> Seq<DepEdgeView> {
        loaded::<DepEdge>(self.log).filter(|e: DepEdgeView| e.removed_at is None)
    }

    /// The graph of the active blocking edges.
    pub open spec fn graph(self) -> Set<(Seq<char>, Seq<char>)> {
        blocking_graph(self.active())
    }

    /// The active edge with the given key, if there is one.
    pub open spec fn find(self, from: Seq<char>, to: Seq<char>, edge_type: EdgeType) -> Option<
        DepEdgeView,
    > {
        match latest::<DepEdge>(self.log, (from, to, edge_type)) {
            Some(e) => if e.removed_at is Some {
                None
            } else {
                Some(e)
            },
            None => None,
        }
    }

    /// Whether the edge would close a cycle of blocking edges.
    pub open spec fn closes_cycle(self, edge: DepEdgeView) -> bool {
        edge.edge_type.blocks() && reaches(self.graph(), arc(edge).1, arc(edge).0)
    }

    /// The store with one more record.
    pub open spec fn with(self, edge: DepEdgeView) -> DepStoreView {
        DepStoreView { log: self.log.push(edge), ..self }
    }
}

/// The orb with the given identifier, the last one where there are several.
pub open spec fn orb_named(orbs: Seq<OrbView>, id: Seq<char>) -> Option<OrbView> {
    latest::<Orb>(orbs, id)
}

/// Whether an orb that is not done has to be done before the orb with the given identifier.
pub open spec fn is_blocked(
    orbs: Seq<OrbView>,
    g: Set<(Seq<char>, Seq<char>)>,
    id: Seq<char>,
) -> bool {
    exists|b: Seq<char>| #[trigger]
        g.contains((b, id)) && orb_named(orbs, b) is Some && !(orb_named(
            orbs,
            b,
        )->0.effective_status() is Done)
}

/// Whether work on an orb has not ended.
pub open spec fn is_open(o: OrbView) -> bool {
    !(o.effective_status() is Done || o.effective_status() is Failed
        || o.effective_status() is Cancelled)
}

/// The identifiers of the orbs that can be worked on.
pub open spec fn ready_ids(orbs: Seq<OrbView>, g: Set<(Seq<char>, Seq<char>)>) -> Seq<Seq<char>> {
    orbs.filter(|o: OrbView| is_open(o) && !is_blocked(orbs, g, o.id)).map_values(
        |o: OrbView| o.id,
    )
}

/// The identifiers of the orbs that wait for others.
pub open spec fn waiting_ids(orbs: Seq<OrbView>, g: Set<(Seq<char>, Seq<char>)>) -> Seq<
    Seq<char>,
> {
    orbs.filter(|o: OrbView| is_open(o) && is_blocked(orbs, g, o.id)).map_values(
        |o: OrbView| o.id,
    )
}

/// Whether `p` is the priority of an orb that `id` is followed by.
pub open spec fn has_priority(
    orbs: Seq<OrbView>,
    g: Set<(Seq<char>, Seq<char>)>,
    id: Seq<char>,
    n: Seq<char>,
    p: u8,
) -> bool {
    reaches(g, id, n) && orb_named(orbs, n) is Some && orb_named(orbs, n)->0.priority == p
}

/// Whether `p` is the highest priority (the lowest number) among an orb and all orbs that
/// directly or indirectly depend on it.
pub open spec fn is_effective_priority(
    orbs: Seq<OrbView>,
    g: Set<(Seq<char>, Seq<char>)>,
    id: Seq<char>,
    p: u8,
) -> bool {
    &&& exists|n: Seq<char>| #[trigger] has_priority(orbs, g, id, n, p)
    &&& forall|n: Seq<char>, q: u8| #[trigger] has_priority(orbs, g, id, n, q) ==> p <= q
}

/// The highest priority (the lowest number) among an orb and all orbs that directly or
/// indirectly depend on it.
pub open spec fn effective_priority(
    orbs: Seq<OrbView>,
    g: Set<(Seq<char>, Seq<char>)>,
    id: Seq<char>,
) -> u8 {
    choose|p: u8| is_effective_priority(orbs, g, id, p)
}

/// How urgent an orb is in the pipeline: the lower the sooner.
pub open spec fn urgency(orbs: Seq<OrbView>, g: Set<(Seq<char>, Seq<char>)>) -> spec_fn(
    Seq<char>,
) -> int {
    |id: Seq<char>| effective_priority(orbs, g, id) as int
}

/// The last orb with the given identifier.
fn find_orb<'a>(orbs: &'a [Orb], id: &OrbId) -> (r: Option<&'a Orb>)
    ensures
        match r {
            Some(o) => orb_named(views(orbs@), id@) == Some(o@),
            None => orb_named(views(orbs@), id@) is None,
        },
{
    let ghost os = views(orbs@);
    let mut i: usize = orbs.len();
    assert(os.take(i as int) =~= os);
    while i > 0
        invariant
            i <= orbs@.len(),
            os == views(orbs@),
            latest::<Orb>(os, id@) == latest::<Orb>(os.take(i as int), id@),
        decreases i,
    {
        assert(os.take(i as int).drop_last() =~= os.take(i - 1));
        if orbs[i - 1].id == *id {
            return Some(&orbs[i - 1]);
        }
        i -= 1;
    }
    None
}

/// Whether an orb that is not done has to be done before the orb with the given identifier.
fn has_open_blocker(orbs: &[Orb], edges: &Vec<DepEdge>, id: &OrbId) -> (r: bool)
    ensures
        r == is_blocked(views(orbs@), blocking_graph(views(edges@)), id@),
{
    let ghost os = views(orbs@);
    let ghost es = views(edges@);
    let ghost g = blocking_graph(es);
    let mut i: usize = 0;
    while i < edges.len()
        invariant
            i <= edges@.len(),
            os == views(orbs@),
            es == views(edges@),
            g == blocking_graph(es),
            forall|j: int|
                0 <= j < i && (#[trigger] es[j]).edge_type.blocks() && arc(es[j]).1 == id@ ==> {
                    orb_named(os, arc(es[j]).0) is None || orb_named(
                        os,
                        arc(es[j]).0,
                    )->0.effective_status() is Done
                },
        decreases edges@.len() - i,
    {
        let e = &edges[i];
        assert(es[i as int] == e@);
        if e.edge_type.is_blocking() && *arc_target(e) == *id {
            if let Some(o) = find_orb(orbs, arc_source(e)) {
                if !matches!(o.effective_status(), TaskStatus::Done) {
                    assert(g.contains((arc(es[i as int]).0, id@)));
                    return true;
                }
            }
        }
        i += 1;
    }
    false
}

/// Whether work on the orb has not ended.
fn orb_is_open(o: &Orb) -> (r: bool)
    ensures
        r == is_open(o@),
{
    !matches!(o.effective_status(), TaskStatus::Done | TaskStatus::Failed | TaskStatus::Cancelled)
}

/// The effective priority of an orb.
fn effective_of(orbs: &[Orb], edges: &Vec<DepEdge>, id: &OrbId) -> (p: u8)
    requires
        orb_named(views(orbs@), id@) is Some,
    ensures
        is_effective_priority(views(orbs@), blocking_graph(views(edges@)), id@, p),
        p == effective_priority(views(orbs@), blocking_graph(views(edges@)), id@),
{
    let ghost os = views(orbs@);
    let ghost g = blocking_graph(views(edges@));
    let reached = explore(edges, id);
    let ghost order = views(reached.order@);
    let mut best: Option<u8> = None;
    let mut k: usize = 0;
    while k < reached.order.len()
        invariant
            k <= reached.order@.len(),
            os == views(orbs@),
            g == blocking_graph(views(edges@)),
            order == views(reached.order@),
            order.len() >= 1,
            order[0] == id@,
            orb_named(os, id@) is Some,
            reached.is_complete(g, id@),
            k > 0 ==> best is Some,
            best is Some ==> exists|n: Seq<char>| #[trigger]
                has_priority(os, g, id@, n, best->0),
            forall|j: int|
                0 <= j < k && orb_named(os, #[trigger] order[j]) is Some ==> best is Some && best->0
                    <= orb_named(os, order[j])->0.priority,
        decreases reached.order@.len() - k,
    {
        if let Some(o) = find_orb(orbs, &reached.order[k]) {
            let p: u8 = o.priority;
            proof {
                reached.lemma_sound(g, id@, k as int);
                assert(has_priority(os, g, id@, order[k as int], p));
            }
            let lower: bool = match best {
                Some(b) => p < b,
                None => true,
            };
            if lower {
                best = Some(p);
                assert(has_priority(os, g, id@, order[k as int], best->0));
            }
        }
        k += 1;
    }
    match best {
        Some(p) => {
            proof {
                assert forall|n: Seq<char>, q: u8| #[trigger]
                    has_priority(os, g, id@, n, q) implies p <= q by {
                    reached.lemma_exact(g, id@, n);
                    let j = choose|j: int| 0 <= j < order.len() && order[j] == n;
                    assert(orb_named(os, order[j]) is Some);
                }
                assert(is_effective_priority(os, g, id@, p));
                law_effective_priority_unique(
                    os,
                    g,
                    id@,
                    p,
                    effective_priority(os, g, id@),
                );
            }
            p
        },
        None => 0,
    }
}

/// There is at most one effective priority.
pub proof fn law_effective_priority_unique(
    orbs: Seq<OrbView>,
    g: Set<(Seq<char>, Seq<char>)>,
    id: Seq<char>,
    p: u8,
    q: u8,
)
    requires
        is_effective_priority(orbs, g, id, p),
        is_effective_priority(orbs, g, id, q),
    ensures
        p == q,
{
    let n = choose|n: Seq<char>| #[trigger] has_priority(orbs, g, id, n, p);
    let m = choose|m: Seq<char>| #[trigger] has_priority(orbs, g, id, m, q);
    assert(has_priority(orbs, g, id, n, p));
    assert(has_priority(orbs, g, id, m, q));
}

/// The effective priorities of all orbs, by identifier.
fn compute_effective_priorities(orbs: &[Orb], edges: &Vec<DepEdge>) -> (m: StringHashMap<u8>)
    ensures
        forall|id: Seq<char>| #[trigger]
            m@.contains_key(id) <==> orb_named(views(orbs@), id) is Some,
        forall|id: Seq<char>| #[trigger]
            m@.contains_key(id) ==> m@[id] == effective_priority(
                views(orbs@),
                blocking_graph(views(edges@)),
                id,
            ),
{
    let ghost os = views(orbs@);
    let ghost g = blocking_graph(views(edges@));
    let mut m: StringHashMap<u8> = StringHashMap::new();
    let mut i: usize = 0;
    while i < orbs.len()
        invariant
            i <= orbs@.len(),
            os == views(orbs@),
            g == blocking_graph(views(edges@)),
            forall|id: Seq<char>| #[trigger]
                m@.contains_key(id) <==> exists|j: int| 0 <= j < i && (#[trigger] os[j]).id == id,
            forall|id: Seq<char>| #[trigger]
                m@.contains_key(id) ==> m@[id] == effective_priority(os, g, id),
        decreases orbs@.len() - i,
    {
        let ghost before = m@;
        proof {
            assert(os[i as int] == orbs@[i as int]@);
            lemma_latest::<Orb>(os, os[i as int].id);
        }
        let p: u8 = effective_of(orbs, edges, &orbs[i].id);
        m.insert(orbs[i].id.as_str().to_owned(), p);
        proof {
            let new = os[i as int].id;
            assert forall|id: Seq<char>| #[trigger] m@.contains_key(id) <==> exists|j: int|
                0 <= j < i + 1 && (#[trigger] os[j]).id == id by {
                if id == new {
                    assert(os[i as int].id == id);
                } else {
                    assert(m@.contains_key(id) == before.contains_key(id));
                }
            }
        }
        i += 1;
    }
    proof {
        assert forall|id: Seq<char>| #[trigger] m@.contains_key(id) <==> orb_named(os, id)
            is Some by {
            lemma_latest::<Orb>(os, id);
            if orb_named(os, id) is Some {
                let f = crate::log::first_place::<Orb>(os, id) as int;
                assert(os[f].id == id);
            }
        }
    }
    m
}

/// The identifiers of the orbs, each once.
fn distinct_ids(orbs: &[Orb]) -> (ids: Vec<OrbId>)
    ensures
        views(ids@).no_duplicates(),
        forall|id: Seq<char>| #[trigger]
            views(ids@).contains(id) <==> orb_named(views(orbs@), id) is Some,
{
    let ghost os = views(orbs@);
    let mut ids: Vec<OrbId> = Vec::new();
    let mut i: usize = 0;
    while i < orbs.len()
        invariant
            i <= orbs@.len(),
            os == views(orbs@),
            views(ids@).no_duplicates(),
            forall|id: Seq<char>| #[trigger]
                views(ids@).contains(id) <==> exists|j: int|
                    0 <= j < i && (#[trigger] os[j]).id == id,
        decreases orbs@.len() - i,
    {
        let ghost before = views(ids@);
        assert(os[i as int] == orbs@[i as int]@);
        let known = position(&ids, &orbs[i].id);
        if known.is_none() {
            ids.push(orbs[i].id.clone());
            assert(views(ids@) =~= before.push(os[i as int].id));
        }
        proof {
            let new = os[i as int].id;
            let after = views(ids@);
            assert forall|id: Seq<char>| #[trigger] after.contains(id) <==> exists|j: int|
                0 <= j < i + 1 && (#[trigger] os[j]).id == id by {
                if before.contains(id) {
                    let k = choose|k: int| 0 <= k < before.len() && before[k] == id;
                    assert(after[k] == id);
                }
                if id == new {
                    assert(os[i as int].id == id);
                    if known is None {
                        assert(after[before.len() as int] == id);
                    } else {
                        assert(before[known->0 as int] == id);
                    }
                } else if after.contains(id) {
                    let k = choose|k: int| 0 <= k < after.len() && after[k] == id;
                    assert(before[k] == id);
                }
            }
        }
        i += 1;
    }
    proof {
        assert forall|id: Seq<char>| #[trigger] views(ids@).contains(id) <==> orb_named(os, id)
            is Some by {
            lemma_latest::<Orb>(os, id);
            if orb_named(os, id) is Some {
                let f = crate::log::first_place::<Orb>(os, id) as int;
                assert(os[f].id == id);
            }
        }
    }
    ids
}

/// The places of the identifiers that block the one at `v`.
fn blockers_of(ids: &Vec<OrbId>, edges: &Vec<DepEdge>, v: usize) -> (row: Vec<usize>)
    requires
        views(ids@).no_duplicates(),
        v < ids@.len(),
    ensures
        forall|k: int| 0 <= k < row@.len() ==> (#[trigger] row@[k]) < ids@.len(),
        forall|u: usize|
            u < ids@.len() ==> (#[trigger] row@.contains(u) <==> blocking_graph(
                views(edges@),
            ).contains((views(ids@)[u as int], views(ids@)[v as int]))),
{
    let ghost names = views(ids@);
    let ghost es = views(edges@);
    let ghost g = blocking_graph(es);
    let mut row: Vec<usize> = Vec::new();
    let mut j: usize = 0;
    while j < edges.len()
        invariant
            j <= edges@.len(),
            v < ids@.len(),
            names == views(ids@),
            names.no_duplicates(),
            es == views(edges@),
            g == blocking_graph(es),
            forall|k: int| 0 <= k < row@.len() ==> (#[trigger] row@[k]) < ids@.len(),
            forall|u: usize|
                u < ids@.len() ==> (#[trigger] row@.contains(u) <==> exists|i: int|
                    0 <= i < j && (#[trigger] es[i]).edge_type.blocks() && arc(es[i]) == (
                        names[u as int],
                        names[v as int],
                    )),
        decreases edges@.len() - j,
    {
        let ghost before = row@;
        let e = &edges[j];
        assert(es[j as int] == e@);
        let mut added: Option<usize> = None;
        if e.edge_type.is_blocking() && *arc_target(e) == ids[v] {
            if let Some(u) = position(ids, arc_source(e)) {
                row.push(u);
                added = Some(u);
            }
        }
        proof {
            assert forall|u: usize| u < ids@.len() implies (#[trigger] row@.contains(u)
                <==> exists|i: int|
                0 <= i < j + 1 && (#[trigger] es[i]).edge_type.blocks() && arc(es[i]) == (
                    names[u as int],
                    names[v as int],
                )) by {
                if before.contains(u) {
                    let k = choose|k: int| 0 <= k < before.len() && before[k] == u;
                    assert(row@[k] == u);
                    let i = choose|i: int|
                        0 <= i < j && (#[trigger] es[i]).edge_type.blocks() && arc(es[i]) == (
                            names[u as int],
                            names[v as int],
                        );
                    assert(es[i].edge_type.blocks());
                }
                if added == Some(u) {
                    assert(row@[before.len() as int] == u);
                    assert(es[j as int].edge_type.blocks());
                }
                if row@.contains(u) && !before.contains(u) {
                    let k = choose|k: int| 0 <= k < row@.len() && row@[k] == u;
                    if k < before.len() {
                        assert(before[k] == u);
                    }
                }
                if es[j as int].edge_type.blocks() && arc(es[j as int]) == (
                    names[u as int],
                    names[v as int],
                ) {
                    assert(names.contains(arc(es[j as int]).0));
                    assert(added is Some);
                    assert(added->0 == u);
                }
            }
        }
        j += 1;
    }
    row
}

/// For each identifier the places of those that block it.
fn blocker_lists(ids: &Vec<OrbId>, edges: &Vec<DepEdge>) -> (lists: Vec<Vec<usize>>)
    requires
        views(ids@).no_duplicates(),
    ensures
        lists@.len() == ids@.len(),
        in_bounds(lists@),
        forall|u: usize, v: usize|
            u < ids@.len() && v < ids@.len() ==> (#[trigger] blocker_arcs(lists@).contains((u, v))
                <==> blocking_graph(views(edges@)).contains(
                (views(ids@)[u as int], views(ids@)[v as int]),
            )),
{
    let ghost names = views(ids@);
    let ghost g = blocking_graph(views(edges@));
    let mut lists: Vec<Vec<usize>> = Vec::new();
    let mut v: usize = 0;
    while v < ids.len()
        invariant
            v <= ids@.len(),
            names == views(ids@),
            names.no_duplicates(),
            g == blocking_graph(views(edges@)),
            lists@.len() == v,
            forall|x: int, k: int|
                0 <= x < v && 0 <= k < lists@[x]@.len() ==> (#[trigger] lists@[x]@[k]) < ids@.len(),
            forall|u: usize, x: int|
                u < ids@.len() && 0 <= x < v ==> (#[trigger] lists@[x]@.contains(u) <==> g.contains(
                    (names[u as int], names[x]),
                )),
        decreases ids@.len() - v,
    {
        let row = blockers_of(ids, edges, v);
        lists.push(row);
        v += 1;
    }
    lists
}

/// An order of places is an order of what stands at them.
proof fn lemma_schedule_of_ids(
    arcs: Set<(usize, usize)>,
    order: Seq<usize>,
    m: int,
    levels: spec_fn(usize) -> int,
    g: Set<(Seq<char>, Seq<char>)>,
    names: Seq<Seq<char>>,
    r: Seq<Seq<char>>,
    urgency: spec_fn(Seq<char>) -> int,
)
    requires
        is_schedule(arcs, order, m, levels),
        r.len() == order.len(),
        forall|i: int| 0 <= i < order.len() ==> (#[trigger] order[i]) < names.len(),
        forall|i: int| 0 <= i < order.len() ==> #[trigger] r[i] == names[order[i] as int],
        forall|u: usize, v: usize|
            u < names.len() && v < names.len() ==> (#[trigger] arcs.contains((u, v)) <==> g.contains(
                (names[u as int], names[v as int]),
            )),
        forall|v: usize| v < names.len() ==> #[trigger] levels(v) == urgency(names[v as int]),
    ensures
        is_schedule(g, r, m, urgency),
{
    assert forall|i: int, j: int|
        0 <= i < r.len() && 0 <= j < m && #[trigger] g.contains((r[i], r[j])) implies i < j by {
        assert(arcs.contains((order[i], order[j])));
    }
    assert forall|a: int, b: int| 0 <= a < b < m implies #[trigger] in_turn(g, r, a, b, urgency) by {
        assert(in_turn(arcs, order, a, b, levels));
        lemma_level_of_ids(arcs, order, g, names, r, a, a);
        lemma_level_of_ids(arcs, order, g, names, r, b, b);
        assert(r[a] == names[order[a] as int] && r[b] == names[order[b] as int]);
        assert(levels(order[a]) == urgency(r[a]));
        assert(levels(order[b]) == urgency(r[b]));
    }
    assert forall|j: int| m <= j < r.len() implies #[trigger] blocked_from(g, r, m, j) by {
        assert(blocked_from(arcs, order, m, j));
        let i = choose|i: int|
            m <= i < order.len() && #[trigger] arcs.contains((order[i], order[j]));
        assert(g.contains((r[i], r[j])));
    }
}

/// The level of a node does not depend on how it is named.
proof fn lemma_level_of_ids(
    arcs: Set<(usize, usize)>,
    order: Seq<usize>,
    g: Set<(Seq<char>, Seq<char>)>,
    names: Seq<Seq<char>>,
    r: Seq<Seq<char>>,
    j: int,
    k: int,
)
    requires
        0 <= k <= j < order.len(),
        r.len() == order.len(),
        forall|i: int| 0 <= i < order.len() ==> (#[trigger] order[i]) < names.len(),
        forall|i: int| 0 <= i < order.len() ==> #[trigger] r[i] == names[order[i] as int],
        forall|u: usize, v: usize|
            u < names.len() && v < names.len() ==> (#[trigger] arcs.contains((u, v)) <==> g.contains(
                (names[u as int], names[v as int]),
            )),
    ensures
        level_within(arcs, order, j, k) == level_within(g, r, j, k),
    decreases j, k,
{
    if k > 0 {
        assert(order[k - 1] < names.len() && order[j] < names.len());
        assert(r[k - 1] == names[order[k - 1] as int] && r[j] == names[order[j] as int]);
        assert(arcs.contains((order[k - 1], order[j])) <==> g.contains((r[k - 1], r[j])));
        lemma_level_of_ids(arcs, order, g, names, r, j, k - 1);
        lemma_level_of_ids(arcs, order, g, names, r, k - 1, k - 1);
    }
}

impl DepStore {
    /// A store at the given path with no records.
    pub fn new(path: &str) -> (store: DepStore)
        ensures
            store@ == (DepStoreView { path: path@, log: Seq::empty() }),
    {
        let store = DepStore { path: path.to_owned(), log: Vec::new() };
        assert(store@ =~= (DepStoreView { path: path@, log: Seq::empty() }));
        store
    }

    /// A store at the given path with the given records.
    pub fn from_log(path: &str, log: Vec<DepEdge>) -> (store: DepStore)
        ensures
            store@ == (DepStoreView { path: path@, log: views(log@) }),
    {
        DepStore { path: path.to_owned(), log }
    }

    /// Returns the path to the store file.
    pub fn path(&self) -> (path: &str)
        ensures
            path@ == self@.path,
    {
        self.path.as_str()
    }

    /// Appends a raw edge to the store.
    fn append_raw(&mut self, edge: &DepEdge)
        ensures
            final(self)@ == old(self)@.with(edge@),
    {
        self.log.push(edge.clone());
        assert(self@ =~= old(self)@.with(edge@));
    }

    /// The record that was appended last.
    pub fn last_record(&self) -> (r: Option<DepEdge>)
        ensures
            match r {
                Some(e) => self@.log.len() > 0 && e@ == self@.log.last(),
                None => self@.log.len() == 0,
            },
    {
        let n: usize = self.log.len();
        if n == 0 {
            None
        } else {
            Some(self.log[n - 1].clone())
        }
    }

    /// Adds a dependency edge, checking for cycles on blocking edge types.
    ///
    /// # Errors
    ///
    /// Returns `DepError::CycleDetected` with a shortest cycle if the edge would create a
    /// cycle in the blocking dependency graph (`Blocks`/`DependsOn` edges). The store is then
    /// left as it was.
    pub fn add_edge(&mut self, edge: DepEdge) -> (r: Result<(), DepError>)
        ensures
            r is Err <==> old(self)@.closes_cycle(edge@),
            match r {
                Ok(()) => final(self)@ == old(self)@.with(edge@),
                Err(DepError::CycleDetected { cycle }) => final(self)@ == old(self)@
                    && is_shortest_cycle(
                    old(self)@.graph(),
                    arc(edge@).0,
                    arc(edge@).1,
                    views(cycle@),
                ),
                Err(DepError::Io(_)) => false,
            },
    {
        if edge.edge_type.is_blocking() {
            let existing = self.all_edges();
            if let Some(cycle) = find_cycle(&existing, arc_source(&edge), arc_target(&edge)) {
                return Err(DepError::CycleDetected { cycle });
            }
        }
        self.append_raw(&edge);
        Ok(())
    }

    /// Removes an edge by marking it as removed (soft delete).
    ///
    /// Finds the matching active edge and appends a removed version. Returns false, and leaves
    /// the store as it was, if there is no such edge.
    pub fn remove_edge(&mut self, from: &OrbId, to: &OrbId, edge_type: EdgeType) -> (r: bool)
        ensures
            r == (old(self)@.find(from@, to@, edge_type) is Some),
            !r ==> final(self)@ == old(self)@,
            r ==> final(self)@.log.len() > 0 && final(self)@.log.last().removed_at is Some
                && final(self)@ == old(self)@.with(
                (DepEdgeView {
                    removed_at: final(self)@.log.last().removed_at,
                    ..old(self)@.find(from@, to@, edge_type)->0
                }),
            ),
    {
        self.remove_edge_at(from, to, edge_type, utc_now())
    }

    /// Removes an edge at `now`, as [`DepStore::remove_edge`] does.
    pub fn remove_edge_at(
        &mut self,
        from: &OrbId,
        to: &OrbId,
        edge_type: EdgeType,
        now: Timestamp,
    ) -> (r: bool)
        ensures
            r == (old(self)@.find(from@, to@, edge_type) is Some),
            !r ==> final(self)@ == old(self)@,
            r ==> final(self)@ == old(self)@.with(
                (DepEdgeView {
                    removed_at: Some(now),
                    ..old(self)@.find(from@, to@, edge_type)->0
                }),
            ),
    {
        let ghost log = self@.log;
        let ghost key = (from@, to@, edge_type);
        let mut i: usize = self.log.len();
        assert(log.take(i as int) =~= log);
        while i > 0
            invariant
                i <= self.log@.len(),
                log == views(self.log@),
                log == self@.log,
                self@ == old(self)@,
                key == (from@, to@, edge_type),
                latest::<DepEdge>(log, key) == latest::<DepEdge>(log.take(i as int), key),
            decreases i,
        {
            assert(log.take(i as int).drop_last() =~= log.take(i - 1));
            let same: bool = {
                let e = &self.log[i - 1];
                e.from == *from && e.to == *to && e.edge_type == edge_type
            };
            if same {
                let mut removed = self.log[i - 1].clone();
                if removed.is_removed() {
                    return false;
                }
                removed.remove_at(now);
                self.append_raw(&removed);
                return true;
            }
            i -= 1;
        }
        false
    }

    /// Returns all active (non-removed) edges originating from the given orb.
    pub fn edges_from(&self, id: &OrbId) -> (r: Vec<DepEdge>)
        ensures
            views(r@) == self@.active().filter(|e: DepEdgeView| e.from == id@),
    {
        let all = self.all_edges();
        let ghost pred = |e: DepEdgeView| e.from == id@;
        let f = |e: &DepEdge| -> (b: bool)
            ensures
                b == (e@.from == id@),
        {
            e.from == *id
        };
        keep(&all, f, Ghost(pred))
    }

    /// Returns all active (non-removed) edges targeting the given orb.
    pub fn edges_to(&self, id: &OrbId) -> (r: Vec<DepEdge>)
        ensures
            views(r@) == self@.active().filter(|e: DepEdgeView| e.to == id@),
    {
        let all = self.all_edges();
        let ghost pred = |e: DepEdgeView| e.to == id@;
        let f = |e: &DepEdge| -> (b: bool)
            ensures
                b == (e@.to == id@),
        {
            e.to == *id
        };
        keep(&all, f, Ghost(pred))
    }

    /// Returns all active (non-removed) edges, in the order in which they were first added.
    pub fn all_edges(&self) -> (r: Vec<DepEdge>)
        ensures
            views(r@) == self@.active(),
    {
        let all = load(&self.log);
        let ghost pred = |e: DepEdgeView| e.removed_at is None;
        let f = |e: &DepEdge| -> (b: bool)
            ensures
                b == (e@.removed_at is None),
        {
            !e.is_removed()
        };
        keep(&all, f, Ghost(pred))
    }

    /// Returns orbs in pipeline order (topological sort respecting blocking deps).
    ///
    /// Orbs with no blocking dependencies come first. If multiple orbs are ready at the same
    /// level, they are sorted by effective priority (ascending, i.e. priority 1/Critical
    /// first). Orbs on a cycle, and those behind one, come last.
    pub fn pipeline(&self, orbs: &[Orb]) -> (r: Vec<OrbId>)
        ensures
            views(r@).no_duplicates(),
            forall|id: Seq<char>| #[trigger]
                views(r@).contains(id) <==> orb_named(views(orbs@), id) is Some,
            exists|m: int| #[trigger]
                is_schedule(
                    self@.graph(),
                    views(r@),
                    m,
                    urgency(views(orbs@), self@.graph()),
                ),
    {
        let ghost os = views(orbs@);
        let edges = self.all_edges();
        let ghost g = blocking_graph(views(edges@));
        let ids = distinct_ids(orbs);
        let ghost names = views(ids@);
        let lists = blocker_lists(&ids, &edges);
        let mut levels: Vec<u8> = Vec::new();
        let mut i: usize = 0;
        while i < ids.len()
            invariant
                i <= ids@.len(),
                os == views(orbs@),
                g == blocking_graph(views(edges@)),
                names == views(ids@),
                forall|id: Seq<char>| #[trigger]
                    names.contains(id) <==> orb_named(os, id) is Some,
                levels@.len() == i,
                forall|j: int|
                    0 <= j < i ==> #[trigger] levels@[j] == effective_priority(os, g, names[j]),
            decreases ids@.len() - i,
        {
            assert(names.contains(names[i as int]));
            levels.push(effective_of(orbs, &edges, &ids[i]));
            i += 1;
        }
        let (order, Ghost(m)) = schedule(&lists, &levels);
        let mut r: Vec<OrbId> = Vec::new();
        let mut k: usize = 0;
        while k < order.len()
            invariant
                k <= order@.len(),
                names == views(ids@),
                forall|v: usize| #[trigger] order@.contains(v) <==> v < ids@.len(),
                r@.len() == k,
                forall|j: int|
                    0 <= j < k ==> #[trigger] views(r@)[j] == names[order@[j] as int],
            decreases order@.len() - k,
        {
            assert(order@.contains(order@[k as int]));
            let ghost before = views(r@);
            r.push(ids[order[k]].clone());
            assert(views(r@) =~= before.push(names[order@[k as int] as int]));
            k += 1;
        }
        proof {
            let v = views(r@);
            let o = order@;
            assert forall|i: int| 0 <= i < o.len() implies (#[trigger] o[i]) < names.len() by {
                assert(o.contains(o[i]));
            }
            assert(v.no_duplicates()) by {
                assert forall|i: int, j: int|
                    0 <= i < v.len() && 0 <= j < v.len() && i != j implies v[i] != v[j] by {
                    assert(o[i] != o[j]);
                    assert(o[i] < names.len() && o[j] < names.len());
                }
            }
            assert forall|id: Seq<char>| #[trigger] v.contains(id) <==> orb_named(os, id)
                is Some by {
                if v.contains(id) {
                    let i = choose|i: int| 0 <= i < v.len() && v[i] == id;
                    assert(o[i] < names.len());
                    assert(names.contains(names[o[i] as int]));
                }
                if names.contains(id) {
                    let x = choose|x: int| 0 <= x < names.len() && names[x] == id;
                    assert(o.contains(x as usize));
                    let i = choose|i: int| 0 <= i < o.len() && o[i] == x as usize;
                    assert(v[i] == id);
                }
            }
            let urg = urgency(os, g);
            let lv = urgency_of(levels@);
            assert forall|v: usize| v < names.len() implies #[trigger] lv(v) == urg(
                names[v as int],
            ) by {
                assert(levels@[v as int] == effective_priority(os, g, names[v as int]));
            }
            lemma_schedule_of_ids(blocker_arcs(lists@), o, m, lv, g, names, v, urg);
            assert(is_schedule(self@.graph(), v, m, urg));
        }
        r
    }

    /// Returns orbs whose blocking dependencies are all done.
    ///
    /// An orb is "ready" if:
    /// - It is not done/cancelled/failed itself
    /// - All orbs that block it (via `Blocks` or `DependsOn` edges) have effective status Done
    pub fn ready(&self, orbs: &[Orb]) -> (r: Vec<OrbId>)
        ensures
            views(r@) == ready_ids(views(orbs@), self@.graph()),
    {
        let edges = self.all_edges();
        let ghost os = views(orbs@);
        let ghost g = self@.graph();
        let ghost pred = |o: OrbView| is_open(o) && !is_blocked(os, g, o.id);
        let ghost name = |o: OrbView| o.id;
        let mut r: Vec<OrbId> = Vec::new();
        let mut i: usize = 0;
        proof {
            reveal(Seq::filter);
            assert(views(r@) =~= os.take(0).filter(pred).map_values(name));
        }
        while i < orbs.len()
            invariant
                i <= orbs@.len(),
                os == views(orbs@),
                g == blocking_graph(views(edges@)),
                pred == (|o: OrbView| is_open(o) && !is_blocked(os, g, o.id)),
                name == (|o: OrbView| o.id),
                views(r@) == os.take(i as int).filter(pred).map_values(name),
            decreases orbs@.len() - i,
        {
            let ghost before = views(r@);
            let o = &orbs[i];
            assert(os[i as int] == o@);
            let free: bool = orb_is_open(o) && !has_open_blocker(orbs, &edges, &o.id);
            if free {
                r.push(o.id.clone());
                assert(views(r@) =~= before.push(o@.id));
            }
            i += 1;
            proof {
                lemma_filter_map_step(os, pred, name, i as int);
            }
        }
        assert(os.take(i as int) =~= os);
        r
    }

    /// Returns orbs that are blocked by at least one incomplete dependency.
    pub fn waiting(&self, orbs: &[Orb]) -> (r: Vec<OrbId>)
        ensures
            views(r@) == waiting_ids(views(orbs@), self@.graph()),
    {
        let edges = self.all_edges();
        let ghost os = views(orbs@);
        let ghost g = self@.graph();
        let ghost pred = |o: OrbView| is_open(o) && is_blocked(os, g, o.id);
        let ghost name = |o: OrbView| o.id;
        let mut r: Vec<OrbId> = Vec::new();
        let mut i: usize = 0;
        proof {
            reveal(Seq::filter);
            assert(views(r@) =~= os.take(0).filter(pred).map_values(name));
        }
        while i < orbs.len()
            invariant
                i <= orbs@.len(),
                os == views(orbs@),
                g == blocking_graph(views(edges@)),
                pred == (|o: OrbView| is_open(o) && is_blocked(os, g, o.id)),
                name == (|o: OrbView| o.id),
                views(r@) == os.take(i as int).filter(pred).map_values(name),
            decreases orbs@.len() - i,
        {
            let ghost before = views(r@);
            let o = &orbs[i];
            assert(os[i as int] == o@);
            let waits: bool = orb_is_open(o) && has_open_blocker(orbs, &edges, &o.id);
            if waits {
                r.push(o.id.clone());
                assert(views(r@) =~= before.push(o@.id));
            }
            i += 1;
            proof {
                lemma_filter_map_step(os, pred, name, i as int);
            }
        }
        assert(os.take(i as int) =~= os);
        r
    }

    /// Computes effective priorities for all orbs, propagating highest priority from
    /// transitive dependents.
    ///
    /// If orb A (priority 1) depends on orb B (priority 3), then B's effective priority
    /// becomes 1.
    pub fn effective_priorities(&self, orbs: &[Orb]) -> (m: StringHashMap<u8>)
        ensures
            forall|id: Seq<char>| #[trigger]
                m@.contains_key(id) <==> orb_named(views(orbs@), id) is Some,
            forall|id: Seq<char>| #[trigger]
                m@.contains_key(id) ==> m@[id] == effective_priority(
                    views(orbs@),
                    self@.graph(),
                    id,
                ),
    {
        let edges = self.all_edges();
        compute_effective_priorities(orbs, &edges)
    }
}

/// The active edges are exactly those that are found under their key.
pub proof fn law_active_is_found(store: DepStoreView, e: DepEdgeView)
    ensures
        store.active().contains(e) <==> store.find(e.from, e.to, e.edge_type) == Some(e),
{
    crate::log::law_loaded::<DepEdge>(store.log);
    lemma_latest::<DepEdge>(store.log, DepEdge::key(e));
    lemma_filter(
        loaded::<DepEdge>(store.log),
        |e: DepEdgeView| e.removed_at is None,
    );
}

/// An edge that is added is found, an edge that is removed is not found any more, and all
/// other edges are found as before.
pub proof fn law_write_then_find(
    store: DepStoreView,
    e: DepEdgeView,
    from: Seq<char>,
    to: Seq<char>,
    edge_type: EdgeType,
)
    ensures
        store.with(e).find(e.from, e.to, e.edge_type) == if e.removed_at is None {
            Some(e)
        } else {
            None
        },
        (from, to, edge_type) != (e.from, e.to, e.edge_type) ==> store.with(e).find(
            from,
            to,
            edge_type,
        ) == store.find(from, to, edge_type),
{
    crate::log::law_last_write_wins::<DepEdge>(store.log, e, (from, to, edge_type));
}

/// One more record adds at most its own arc to the graph.
proof fn lemma_graph_grows(store: DepStoreView, e: DepEdgeView)
    ensures
        e.edge_type.blocks() && e.removed_at is None ==> store.with(e).graph().subset_of(
            store.graph().insert(arc(e)),
        ),
        !(e.edge_type.blocks() && e.removed_at is None) ==> store.with(e).graph().subset_of(
            store.graph(),
        ),
{
    let after = store.with(e);
    assert forall|p: (Seq<char>, Seq<char>)| after.graph().contains(p) implies store.graph().contains(
        p,
    ) || (p == arc(e) && e.edge_type.blocks() && e.removed_at is None) by {
        let es = after.active();
        let i = choose|i: int|
            0 <= i < es.len() && (#[trigger] es[i]).edge_type.blocks() && arc(es[i]) == p;
        let x = es[i];
        assert(es.contains(x));
        law_active_is_found(after, x);
        law_write_then_find(store, e, x.from, x.to, x.edge_type);
        if (x.from, x.to, x.edge_type) != (e.from, e.to, e.edge_type) {
            law_active_is_found(store, x);
            let old_es = store.active();
            let j = choose|j: int| 0 <= j < old_es.len() && old_es[j] == x;
            assert(old_es[j].edge_type.blocks());
        }
    }
}

/// A store without a cycle of blocking edges stays without one when an edge is added that
/// closes no cycle, as [`DepStore::add_edge`] makes sure.
pub proof fn law_add_keeps_acyclic(store: DepStoreView, e: DepEdgeView)
    requires
        acyclic(store.graph()),
        !store.closes_cycle(e),
    ensures
        acyclic(store.with(e).graph()),
{
    lemma_graph_grows(store, e);
    if e.edge_type.blocks() && e.removed_at is None {
        law_new_arc_closes_cycle(store.graph(), arc(e).0, arc(e).1);
        assert(store.graph().insert((arc(e).0, arc(e).1)) =~= store.graph().insert(arc(e)));
        law_acyclic_subgraph(store.with(e).graph(), store.graph().insert(arc(e)));
    } else {
        law_acyclic_subgraph(store.with(e).graph(), store.graph());
    }
}

/// A store without a cycle of blocking edges stays without one when an edge is removed.
pub proof fn law_remove_keeps_acyclic(store: DepStoreView, e: DepEdgeView)
    requires
        acyclic(store.graph()),
        e.removed_at is Some,
    ensures
        acyclic(store.with(e).graph()),
{
    lemma_graph_grows(store, e);
    law_acyclic_subgraph(store.with(e).graph(), store.graph());
}

/// A store without records has no cycle.
pub proof fn law_empty_acyclic(path: Seq<char>)
    ensures
        acyclic((DepStoreView { path, log: Seq::empty() }).graph()),
{
    let store = DepStoreView { path, log: Seq::empty() };
    let g = store.graph();
    assert forall|p: (Seq<char>, Seq<char>)| !g.contains(p) by {
        if g.contains(p) {
            let es = store.active();
            let i = choose|i: int|
                0 <= i < es.len() && (#[trigger] es[i]).edge_type.blocks() && arc(es[i]) == p;
            assert(es.contains(es[i]));
            law_active_is_found(store, es[i]);
        }
    }
    assert forall|w: Seq<Seq<char>>| #[trigger] is_walk(g, w) && w.len() >= 2 implies w[0]
        != w.last() by {
        assert(crate::graph::joined_at(g, w, 0));
    }
}

/// An orb on which work has not ended is either ready or waiting, and no orb is both.
pub proof fn law_ready_or_waiting(
    orbs: Seq<OrbView>,
    g: Set<(Seq<char>, Seq<char>)>,
    o: OrbView,
    id: Seq<char>,
)
    ensures
        orbs.contains(o) && is_open(o) ==> ready_ids(orbs, g).contains(o.id) || waiting_ids(
            orbs,
            g,
        ).contains(o.id),
        !(ready_ids(orbs, g).contains(id) && waiting_ids(orbs, g).contains(id)),
{
    let free = |o: OrbView| is_open(o) && !is_blocked(orbs, g, o.id);
    let waits = |o: OrbView| is_open(o) && is_blocked(orbs, g, o.id);
    lemma_filter(orbs, free);
    lemma_filter(orbs, waits);
    let ready = orbs.filter(free);
    let waiting = orbs.filter(waits);
    if orbs.contains(o) && is_open(o) {
        if is_blocked(orbs, g, o.id) {
            assert(waiting.contains(o));
            let i = choose|i: int| 0 <= i < waiting.len() && waiting[i] == o;
            assert(waiting_ids(orbs, g)[i] == o.id);
        } else {
            assert(ready.contains(o));
            let i = choose|i: int| 0 <= i < ready.len() && ready[i] == o;
            assert(ready_ids(orbs, g)[i] == o.id);
        }
    }
    if ready_ids(orbs, g).contains(id) && waiting_ids(orbs, g).contains(id) {
        let i = choose|i: int| 0 <= i < ready.len() && ready_ids(orbs, g)[i] == id;
        let j = choose|j: int| 0 <= j < waiting.len() && waiting_ids(orbs, g)[j] == id;
        assert(free(ready[i]));
        assert(waits(waiting[j]));
    }
}

/// Among the priorities of an orb and its dependents there is a highest.
proof fn lemma_effective_exists(
    orbs: Seq<OrbView>,
    g: Set<(Seq<char>, Seq<char>)>,
    id: Seq<char>,
    n: Seq<char>,
    p: u8,
)
    requires
        has_priority(orbs, g, id, n, p),
    ensures
        exists|q: u8| is_effective_priority(orbs, g, id, q),
    decreases p,
{
    if exists|m: Seq<char>, q: u8| #[trigger] has_priority(orbs, g, id, m, q) && q < p {
        let (m, q) = choose|m: Seq<char>, q: u8| #[trigger]
            has_priority(orbs, g, id, m, q) && q < p;
        lemma_effective_exists(orbs, g, id, m, q);
    } else {
        assert(is_effective_priority(orbs, g, id, p));
    }
}

/// Every orb has an effective priority. It is at least as high as its own and as the
/// effective priority of every orb that directly or indirectly depends on it.
pub proof fn law_priority_propagates(
    orbs: Seq<OrbView>,
    g: Set<(Seq<char>, Seq<char>)>,
    id: Seq<char>,
    dependent: Seq<char>,
)
    requires
        orb_named(orbs, id) is Some,
    ensures
        is_effective_priority(orbs, g, id, effective_priority(orbs, g, id)),
        effective_priority(orbs, g, id) <= orb_named(orbs, id)->0.priority,
        reaches(g, id, dependent) && orb_named(orbs, dependent) is Some ==> effective_priority(
            orbs,
            g,
            id,
        ) <= effective_priority(orbs, g, dependent),
{
    crate::graph::lemma_reaches_self(g, id);
    let p = orb_named(orbs, id)->0.priority;
    assert(has_priority(orbs, g, id, id, p));
    lemma_effective_exists(orbs, g, id, id, p);
    if reaches(g, id, dependent) && orb_named(orbs, dependent) is Some {
        crate::graph::lemma_reaches_self(g, dependent);
        let q = orb_named(orbs, dependent)->0.priority;
        assert(has_priority(orbs, g, dependent, dependent, q));
        lemma_effective_exists(orbs, g, dependent, dependent, q);
        let e = effective_priority(orbs, g, dependent);
        let n = choose|n: Seq<char>| #[trigger] has_priority(orbs, g, dependent, n, e);
        crate::graph::lemma_reaches_trans(g, id, dependent, n);
        assert(has_priority(orbs, g, id, n, e));
    }
}

/// Where the store has no cycle of blocking edges, every orb stands in the pipeline behind
/// all orbs that block it.
pub proof fn law_pipeline_respects_blockers(
    store: DepStoreView,
    orbs: Seq<OrbView>,
    r: Seq<Seq<char>>,
    i: int,
    j: int,
)
    requires
        acyclic(store.graph()),
        exists|m: int| #[trigger]
            is_schedule(store.graph(), r, m, urgency(orbs, store.graph())),
        0 <= i < r.len(),
        0 <= j < r.len(),
        store.graph().contains((r[i], r[j])),
    ensures
        i < j,
{
    let m = choose|m: int| #[trigger]
        is_schedule(store.graph(), r, m, urgency(orbs, store.graph()));
    crate::schedule::law_schedule_without_cycle(
        store.graph(),
        r,
        m,
        urgency(orbs, store.graph()),
    );
}

/// Where the store has no cycle of blocking edges, the pipeline goes level by level, and orbs at
/// the same level are sorted by effective priority.
pub proof fn law_pipeline_by_level(
    store: DepStoreView,
    orbs: Seq<OrbView>,
    r: Seq<Seq<char>>,
    a: int,
    b: int,
)
    requires
        acyclic(store.graph()),
        exists|m: int| #[trigger]
            is_schedule(store.graph(), r, m, urgency(orbs, store.graph())),
        0 <= a < b < r.len(),
    ensures
        level(store.graph(), r, a) <= level(store.graph(), r, b),
        level(store.graph(), r, a) == level(store.graph(), r, b) ==> effective_priority(
            orbs,
            store.graph(),
            r[a],
        ) <= effective_priority(orbs, store.graph(), r[b]),
{
    let g = store.graph();
    let m = choose|m: int| #[trigger] is_schedule(g, r, m, urgency(orbs, g));
    crate::schedule::law_schedule_without_cycle(g, r, m, urgency(orbs, g));
    assert(in_turn(g, r, a, b, urgency(orbs, g)));
}

/// Of several orbs with the same identifier the last one counts.
pub proof fn law_orb_named(orbs: Seq<OrbView>, j: int)
    requires
        0 <= j < orbs.len(),
        forall|k: int| j < k < orbs.len() ==> (#[trigger] orbs[k]).id != orbs[j].id,
    ensures
        orb_named(orbs, orbs[j].id) == Some(orbs[j]),
    decreases orbs.len(),
{
    if j < orbs.len() - 1 {
        let front = orbs.drop_last();
        assert(orbs[orbs.len() - 1].id != orbs[j].id);
        assert forall|k: int| j < k < front.len() implies (#[trigger] front[k]).id
            != front[j].id by {
            assert(orbs[k].id != orbs[j].id);
        }
        law_orb_named(front, j);
    }
}

/// The orb that counts for an identifier stands in the list, and none with that identifier
/// stands behind it.
proof fn lemma_named_place(orbs: Seq<OrbView>, id: Seq<char>) -> (j: int)
    requires
        orb_named(orbs, id) is Some,
    ensures
        0 <= j < orbs.len(),
        orbs[j].id == id,
        orb_named(orbs, id) == Some(orbs[j]),
        forall|k: int| j < k < orbs.len() ==> (#[trigger] orbs[k]).id != id,
    decreases orbs.len(),
{
    if orbs.last().id == id {
        orbs.len() - 1
    } else {
        let j = lemma_named_place(orbs.drop_last(), id);
        assert(orbs.drop_last()[j] == orbs[j]);
        assert forall|k: int| j < k < orbs.len() implies (#[trigger] orbs[k]).id != id by {
            if k < orbs.len() - 1 {
                assert(orbs.drop_last()[k] == orbs[k]);
            }
        }
        j
    }
}

/// An orb on which work has not ended waits, and is not ready, as long as an active edge says that
/// an orb of the list blocks it, or that it depends on one, which is not done: be that one
/// pending, being worked on, in review, failed or cancelled.
pub proof fn law_waits_for_blocker(
    store: DepStoreView,
    orbs: Seq<OrbView>,
    i: int,
    j: int,
    e: DepEdgeView,
)
    requires
        0 <= i < orbs.len(),
        orbs[i].effective_status() == TaskStatus::Pending || orbs[i].effective_status()
            == TaskStatus::Active || orbs[i].effective_status() == TaskStatus::Review,
        0 <= j < orbs.len(),
        forall|k: int| j < k < orbs.len() ==> (#[trigger] orbs[k]).id != orbs[j].id,
        store.active().contains(e),
        (e.edge_type == EdgeType::Blocks && e.from == orbs[j].id && e.to == orbs[i].id) || (
        e.edge_type == EdgeType::DependsOn && e.from == orbs[i].id && e.to == orbs[j].id),
    ensures
        orbs[j].effective_status() == TaskStatus::Pending ==> waiting_ids(
            orbs,
            store.graph(),
        ).contains(orbs[i].id) && !ready_ids(orbs, store.graph()).contains(orbs[i].id),
        orbs[j].effective_status() == TaskStatus::Active ==> waiting_ids(
            orbs,
            store.graph(),
        ).contains(orbs[i].id) && !ready_ids(orbs, store.graph()).contains(orbs[i].id),
        orbs[j].effective_status() == TaskStatus::Review ==> waiting_ids(
            orbs,
            store.graph(),
        ).contains(orbs[i].id) && !ready_ids(orbs, store.graph()).contains(orbs[i].id),
        orbs[j].effective_status() == TaskStatus::Failed ==> waiting_ids(
            orbs,
            store.graph(),
        ).contains(orbs[i].id) && !ready_ids(orbs, store.graph()).contains(orbs[i].id),
        orbs[j].effective_status() == TaskStatus::Cancelled ==> waiting_ids(
            orbs,
            store.graph(),
        ).contains(orbs[i].id) && !ready_ids(orbs, store.graph()).contains(orbs[i].id),
{
    let g = store.graph();
    let id = orbs[i].id;
    let es = store.active();
    law_orb_named(orbs, j);
    let m = choose|m: int| 0 <= m < es.len() && es[m] == e;
    crate::blocking::law_blocking_graph(es, orbs[j].id, id);
    assert(g.contains((orbs[j].id, id)));
    assert(orbs.contains(orbs[i]));
    law_ready_or_waiting(orbs, g, orbs[i], id);
    if orbs[j].effective_status() != TaskStatus::Done {
        assert(is_blocked(orbs, g, id));
        if ready_ids(orbs, g).contains(id) {
            let free = |o: OrbView| is_open(o) && !is_blocked(orbs, g, o.id);
            lemma_filter(orbs, free);
            let ready = orbs.filter(free);
            let k = choose|k: int| 0 <= k < ready.len() && ready_ids(orbs, g)[k] == id;
            assert(free(ready[k]));
        }
    }
}

/// An orb on which work has not ended is ready, and does not wait, if every orb of the list of
/// which an active edge says that it blocks it, or that it depends on it, is done. Orbs that are
/// not in the list, and edges of other types, do not matter.
pub proof fn law_ready_when_blockers_done(store: DepStoreView, orbs: Seq<OrbView>, i: int)
    requires
        0 <= i < orbs.len(),
        orbs[i].effective_status() == TaskStatus::Pending || orbs[i].effective_status()
            == TaskStatus::Active || orbs[i].effective_status() == TaskStatus::Review,
        forall|e: DepEdgeView, j: int|
            #![trigger store.active().contains(e), orbs[j]]
            store.active().contains(e) && 0 <= j < orbs.len() && ((e.edge_type == EdgeType::Blocks
                && e.from == orbs[j].id && e.to == orbs[i].id) || (e.edge_type
                == EdgeType::DependsOn && e.from == orbs[i].id && e.to == orbs[j].id))
                ==> orbs[j].effective_status() == TaskStatus::Done,
    ensures
        ready_ids(orbs, store.graph()).contains(orbs[i].id),
        !waiting_ids(orbs, store.graph()).contains(orbs[i].id),
{
    let g = store.graph();
    let id = orbs[i].id;
    let es = store.active();
    assert(orbs.contains(orbs[i]));
    law_ready_or_waiting(orbs, g, orbs[i], id);
    if is_blocked(orbs, g, id) {
        let b = choose|b: Seq<char>| #[trigger]
            g.contains((b, id)) && orb_named(orbs, b) is Some && !(orb_named(
                orbs,
                b,
            )->0.effective_status() is Done);
        assert(g.contains((b, id)));
        crate::blocking::law_blocking_graph(es, b, id);
        let m = choose|m: int|
            0 <= m < es.len() && {
                ||| (#[trigger] es[m]).edge_type == EdgeType::Blocks && es[m].from == b && es[m].to
                    == id
                ||| es[m].edge_type == EdgeType::DependsOn && es[m].from == id && es[m].to == b
            };
        assert(store.active().contains(es[m]));
        let j = lemma_named_place(orbs, b);
        assert(orbs[j].effective_status() == TaskStatus::Done);
    }
    if waiting_ids(orbs, g).contains(id) {
        let waits = |o: OrbView| is_open(o) && is_blocked(orbs, g, o.id);
        lemma_filter(orbs, waits);
        let waiting = orbs.filter(waits);
        let k = choose|k: int| 0 <= k < waiting.len() && waiting_ids(orbs, g)[k] == id;
        assert(waits(waiting[k]));
    }
}

/// An orb on which work has ended, because it is done, has failed or was cancelled, is neither
/// ready nor waiting, and neither is one that is not in the list.
pub proof fn law_ended_is_left_out(
    orbs: Seq<OrbView>,
    g: Set<(Seq<char>, Seq<char>)>,
    id: Seq<char>,
)
    requires
        forall|k: int|
            0 <= k < orbs.len() && (#[trigger] orbs[k]).id == id ==> orbs[k].effective_status()
                == TaskStatus::Done || orbs[k].effective_status() == TaskStatus::Failed
                || orbs[k].effective_status() == TaskStatus::Cancelled,
    ensures
        !ready_ids(orbs, g).contains(id),
        !waiting_ids(orbs, g).contains(id),
{
    let free = |o: OrbView| is_open(o) && !is_blocked(orbs, g, o.id);
    let waits = |o: OrbView| is_open(o) && is_blocked(orbs, g, o.id);
    lemma_filter(orbs, free);
    lemma_filter(orbs, waits);
    let ready = orbs.filter(free);
    let waiting = orbs.filter(waits);
    if ready_ids(orbs, g).contains(id) {
        let k = choose|k: int| 0 <= k < ready.len() && ready_ids(orbs, g)[k] == id;
        assert(free(ready[k]));
        assert(ready.contains(ready[k]));
        let x = choose|x: int| 0 <= x < orbs.len() && orbs[x] == ready[k];
        assert(orbs[x].id == id);
    }
    if waiting_ids(orbs, g).contains(id) {
        let k = choose|k: int| 0 <= k < waiting.len() && waiting_ids(orbs, g)[k] == id;
        assert(waits(waiting[k]));
        assert(waiting.contains(waiting[k]));
        let x = choose|x: int| 0 <= x < orbs.len() && orbs[x] == waiting[k];
        assert(orbs[x].id == id);
    }
}

/// What is ready, and what waits, comes in the order of the list.
pub proof fn law_ready_in_order(
    orbs: Seq<OrbView>,
    g: Set<(Seq<char>, Seq<char>)>,
    a: int,
    b: int,
)
    ensures
        0 <= a < b < ready_ids(orbs, g).len() ==> exists|i: int, j: int|
            0 <= i < j < orbs.len() && (#[trigger] orbs[i]).id == ready_ids(orbs, g)[a] && (
            #[trigger] orbs[j]).id == ready_ids(orbs, g)[b],
        0 <= a < b < waiting_ids(orbs, g).len() ==> exists|i: int, j: int|
            0 <= i < j < orbs.len() && (#[trigger] orbs[i]).id == waiting_ids(orbs, g)[a] && (
            #[trigger] orbs[j]).id == waiting_ids(orbs, g)[b],
{
    let free = |o: OrbView| is_open(o) && !is_blocked(orbs, g, o.id);
    let waits = |o: OrbView| is_open(o) && is_blocked(orbs, g, o.id);
    lemma_filter(orbs, free);
    lemma_filter(orbs, waits);
    let ready = orbs.filter(free);
    let waiting = orbs.filter(waits);
    if 0 <= a < b < ready.len() {
        assert(crate::lists::in_order(orbs, ready[a], ready[b]));
        let (i, j) = choose|i: int, j: int|
            0 <= i < j < orbs.len() && #[trigger] orbs[i] == ready[a] && #[trigger] orbs[j]
                == ready[b];
        assert(orbs[i].id == ready_ids(orbs, g)[a] && orbs[j].id == ready_ids(orbs, g)[b]);
    }
    if 0 <= a < b < waiting.len() {
        assert(crate::lists::in_order(orbs, waiting[a], waiting[b]));
        let (i, j) = choose|i: int, j: int|
            0 <= i < j < orbs.len() && #[trigger] orbs[i] == waiting[a] && #[trigger] orbs[j]
                == waiting[b];
        assert(orbs[i].id == waiting_ids(orbs, g)[a] && orbs[j].id == waiting_ids(orbs, g)[b]);
    }
}

/// An edge closes a cycle exactly if it blocks and the orb that it puts second already has to be
/// done, directly or indirectly, before the one that it puts first; so does an edge that blocks
/// from an orb to itself. Edges of other types close none.
pub proof fn law_closes_cycle(store: DepStoreView, e: DepEdgeView)
    ensures
        e.edge_type == EdgeType::Blocks ==> (store.closes_cycle(e) <==> reaches(
            store.graph(),
            e.to,
            e.from,
        )),
        e.edge_type == EdgeType::DependsOn ==> (store.closes_cycle(e) <==> reaches(
            store.graph(),
            e.from,
            e.to,
        )),
        e.edge_type != EdgeType::Blocks && e.edge_type != EdgeType::DependsOn
            ==> !store.closes_cycle(e),
        (e.edge_type == EdgeType::Blocks || e.edge_type == EdgeType::DependsOn) && e.from == e.to
            ==> store.closes_cycle(e),
{
    crate::graph::lemma_reaches_self(store.graph(), e.from);
}

/// One orb has to be done before another, as a store has it, exactly if an active edge says that
/// it blocks the other, or that the other depends on it.
pub proof fn law_graph_of_store(store: DepStoreView, a: Seq<char>, b: Seq<char>)
    ensures
        store.graph().contains((a, b)) <==> exists|e: DepEdgeView| #[trigger]
            store.active().contains(e) && ((e.edge_type == EdgeType::Blocks && e.from == a && e.to
                == b) || (e.edge_type == EdgeType::DependsOn && e.from == b && e.to == a)),
{
    let es = store.active();
    crate::blocking::law_blocking_graph(es, a, b);
    if store.graph().contains((a, b)) {
        let m = choose|m: int|
            0 <= m < es.len() && {
                ||| (#[trigger] es[m]).edge_type == EdgeType::Blocks && es[m].from == a && es[m].to
                    == b
                ||| es[m].edge_type == EdgeType::DependsOn && es[m].from == b && es[m].to == a
            };
        assert(store.active().contains(es[m]));
    }
    if exists|e: DepEdgeView| #[trigger]
        store.active().contains(e) && ((e.edge_type == EdgeType::Blocks && e.from == a && e.to == b)
            || (e.edge_type == EdgeType::DependsOn && e.from == b && e.to == a)) {
        let e = choose|e: DepEdgeView| #[trigger]
            store.active().contains(e) && ((e.edge_type == EdgeType::Blocks && e.from == a && e.to
                == b) || (e.edge_type == EdgeType::DependsOn && e.from == b && e.to == a));
        let m = choose|m: int| 0 <= m < es.len() && es[m] == e;
        assert(es[m].edge_type == e.edge_type);
    }
}

/// A store without records finds nothing, and one more record is written behind all others.
pub proof fn law_records(
    path: Seq<char>,
    store: DepStoreView,
    e: DepEdgeView,
    from: Seq<char>,
    to: Seq<char>,
    edge_type: EdgeType,
)
    ensures
        (DepStoreView { path, log: Seq::empty() }).find(from, to, edge_type) is None,
        store.with(e).log == store.log + seq![e],
        store.with(e).path == store.path,
{
    assert(store.log.push(e) =~= store.log + seq![e]);
}

/// Active edges come in the order in which they were first added, each once.
pub proof fn law_active_order(store: DepStoreView, a: int, b: int)
    requires
        0 <= a < b < store.active().len(),
    ensures
        ({
            let x = store.active()[a];
            let y = store.active()[b];
            &&& (x.from, x.to, x.edge_type) != (y.from, y.to, y.edge_type)
            &&& x.removed_at is None && y.removed_at is None
            &&& exists|i: int|
                0 <= i < store.log.len() && (#[trigger] store.log[i]).from == x.from
                    && store.log[i].to == x.to && store.log[i].edge_type == x.edge_type && (forall|
                    k: int,
                |
                    0 <= k <= i ==> ((#[trigger] store.log[k]).from, store.log[k].to, store.log[k].edge_type)
                        != (y.from, y.to, y.edge_type))
        }),
{
    let all = loaded::<DepEdge>(store.log);
    let pred = |e: DepEdgeView| e.removed_at is None;
    crate::log::law_loaded::<DepEdge>(store.log);
    lemma_filter(all, pred);
    let x = store.active()[a];
    let y = store.active()[b];
    assert(crate::lists::in_order(all, x, y));
    let (p, q) = choose|p: int, q: int|
        0 <= p < q < all.len() && #[trigger] all[p] == x && #[trigger] all[q] == y;
    assert(crate::log::comes_before::<DepEdge>(store.log, all[p], all[q]));
    assert(DepEdge::key(all[p]) != DepEdge::key(all[q]));
    let kx = (x.from, x.to, x.edge_type);
    let ky = (y.from, y.to, y.edge_type);
    lemma_latest::<DepEdge>(store.log, kx);
    lemma_latest::<DepEdge>(store.log, ky);
    assert(all.contains(all[p]));
    let i = crate::log::first_place::<DepEdge>(store.log, kx) as int;
    assert(DepEdge::key(store.log[i]) == kx);
    assert forall|k: int| 0 <= k <= i implies (
        (#[trigger] store.log[k]).from,
        store.log[k].to,
        store.log[k].edge_type,
    ) != ky by {
        if DepEdge::key(store.log[k]) == ky {
            assert(crate::log::first_place::<DepEdge>(store.log, ky) <= k);
        }
    }
}

/// The effective priority of an orb is the priority of the orb or of one that directly or
/// indirectly depends on it, and no such orb has a higher one.
pub proof fn law_priority_is_highest(
    orbs: Seq<OrbView>,
    g: Set<(Seq<char>, Seq<char>)>,
    id: Seq<char>,
    n: Seq<char>,
)
    requires
        orb_named(orbs, id) is Some,
    ensures
        exists|m: Seq<char>| #[trigger]
            reaches(g, id, m) && orb_named(orbs, m) is Some && orb_named(orbs, m)->0.priority
                == effective_priority(orbs, g, id),
        reaches(g, id, n) && orb_named(orbs, n) is Some ==> effective_priority(orbs, g, id)
            <= orb_named(orbs, n)->0.priority,
{
    law_priority_propagates(orbs, g, id, n);
    let p = effective_priority(orbs, g, id);
    let m = choose|m: Seq<char>| #[trigger] has_priority(orbs, g, id, m, p);
    assert(reaches(g, id, m));
    if reaches(g, id, n) && orb_named(orbs, n) is Some {
        assert(has_priority(orbs, g, id, n, orb_named(orbs, n)->0.priority));
    }
}

} // verus!

//! Trees of orbs, built from their parents.

use vstd::prelude::*;

use crate::blocking::{arc, blocking_graph};
use crate::dep::{DepEdge, DepEdgeView};
use crate::dep_store::{orb_named, DepStore, DepStoreView};
use crate::graph::{
    is_walk, joined_at, lemma_reaches_self, lemma_reaches_step, lemma_reaches_trans, reaches,
    walk_between,
};
use crate::id::OrbId;
use crate::lists::lemma_filter;
use crate::log::{keep, views};
use crate::orb::{opt_id_is, Orb, OrbView};
use crate::orb_store::{OrbStore, OrbStoreView};

verus! {

/// A node in an orb tree, containing an orb and its children.
#[derive(Debug)]
pub struct OrbNode {
    pub orb: Orb,
    pub children: Vec<OrbNode>,
    pub depth: usize,
}

/// A full timeline combining tree structure with dependency edges.
#[derive(Debug)]
pub struct FullTimeline {
    pub root: OrbNode,
    pub dep_edges: Vec<DepEdge>,
    pub total_orbs: usize,
    pub max_depth: usize,
}

/// The arcs from the orbs to their children.
pub open spec fn child_graph(orbs: Seq<OrbView>) -> Set<(Seq<char>, Seq<char>)> {
    Set::new(
        |p: (Seq<char>, Seq<char>)|
            exists|i: int|
                0 <= i < orbs.len() && (#[trigger] orbs[i]).parent_id == Some(p.0) && orbs[i].id
                    == p.1,
    )
}

/// Whether no way down from `root` comes to the same orb twice.
pub open spec fn is_tree_below(orbs: Seq<OrbView>, root: Seq<char>) -> bool {
    forall|w: Seq<Seq<char>>| #[trigger]
        is_walk(child_graph(orbs), w) && w[0] == root ==> w.no_duplicates()
}

/// The children of an orb, in order.
pub open spec fn children_of(orbs: Seq<OrbView>, id: Seq<char>) -> Seq<OrbView> {
    orbs.filter(|o: OrbView| o.parent_id == Some(id))
}

/// Whether the node is the tree of all that stands below its orb, which is at the given
/// depth.
pub open spec fn is_tree_of(node: OrbNode, orbs: Seq<OrbView>, depth: int) -> bool
    decreases node,
{
    &&& node.depth == depth
    &&& node.children@.len() == children_of(orbs, node.orb@.id).len()
    &&& forall|i: int|
        0 <= i < node.children@.len() ==> (#[trigger] node.children@[i]).orb@ == children_of(
            orbs,
            node.orb@.id,
        )[i] && is_tree_of(node.children@[i], orbs, depth + 1)
}

/// The orbs of a tree, each before its children.
pub open spec fn flat(node: OrbNode) -> Seq<OrbView>
    decreases node, node.children@.len() + 1,
{
    seq![node.orb@] + flat_children(node, node.children@.len())
}

/// The orbs of the trees of the first `n` children.
pub open spec fn flat_children(node: OrbNode, n: nat) -> Seq<OrbView>
    decreases node, n,
{
    if n == 0 || n > node.children@.len() {
        Seq::empty()
    } else {
        flat_children(node, (n - 1) as nat) + flat(node.children@[n - 1])
    }
}

/// The orbs of a tree that have no children.
pub open spec fn leaf_orbs(node: OrbNode) -> Seq<OrbView>
    decreases node, node.children@.len() + 1,
{
    if node.children@.len() == 0 {
        seq![node.orb@]
    } else {
        leaves_of_children(node, node.children@.len())
    }
}

/// The orbs without children in the trees of the first `n` children.
pub open spec fn leaves_of_children(node: OrbNode, n: nat) -> Seq<OrbView>
    decreases node, n,
{
    if n == 0 || n > node.children@.len() {
        Seq::empty()
    } else {
        leaves_of_children(node, (n - 1) as nat) + leaf_orbs(node.children@[n - 1])
    }
}

/// The number of steps from the root of a tree to its deepest orb.
pub open spec fn height(node: OrbNode) -> nat
    decreases node, node.children@.len() + 1,
{
    height_over(node, node.children@.len())
}

/// The number of steps from the root of a tree to the deepest orb below its first `n`
/// children.
pub open spec fn height_over(node: OrbNode, n: nat) -> nat
    decreases node, n,
{
    if n == 0 || n > node.children@.len() {
        0
    } else {
        let before = height_over(node, (n - 1) as nat);
        let here = height(node.children@[n - 1]) + 1;
        if here > before {
            here
        } else {
            before
        }
    }
}

/// Returns all leaf nodes (orbs with no children).
pub fn leaves(node: &OrbNode) -> (r: Vec<&Orb>)
    ensures
        views(r@) == leaf_orbs(*node),
    decreases node,
{
    let mut r: Vec<&Orb> = Vec::new();
    if node.children.len() == 0 {
        r.push(&node.orb);
        assert(views(r@) =~= seq![node.orb@]);
        return r;
    }
    let mut i: usize = 0;
    assert(views(r@) =~= leaves_of_children(*node, 0));
    while i < node.children.len()
        invariant
            i <= node.children@.len(),
            views(r@) == leaves_of_children(*node, i as nat),
        decreases node.children@.len() - i,
    {
        let ghost before = views(r@);
        let mut below = leaves(&node.children[i]);
        let ghost more = views(below@);
        r.append(&mut below);
        assert(views(r@) =~= before + more);
        i += 1;
    }
    r
}

/// Returns the maximum depth of the tree (0-indexed from root).
pub fn depth(node: &OrbNode) -> (d: usize)
    requires
        height(*node) <= usize::MAX,
    ensures
        d == height(*node),
    decreases node,
{
    let mut d: usize = 0;
    let mut i: usize = 0;
    while i < node.children.len()
        invariant
            i <= node.children@.len(),
            height(*node) <= usize::MAX,
            d == height_over(*node, i as nat),
        decreases node.children@.len() - i,
    {
        proof {
            lemma_height_over(*node, (i + 1) as nat);
        }
        let below: usize = depth(&node.children[i]) + 1;
        if below > d {
            d = below;
        }
        i += 1;
    }
    d
}

/// Returns all orbs in pre-order traversal (root first, then children left to right).
pub fn flatten(node: &OrbNode) -> (r: Vec<&Orb>)
    ensures
        views(r@) == flat(*node),
    decreases node,
{
    let mut r: Vec<&Orb> = Vec::new();
    r.push(&node.orb);
    let mut i: usize = 0;
    assert(views(r@) =~= seq![node.orb@] + flat_children(*node, 0));
    while i < node.children.len()
        invariant
            i <= node.children@.len(),
            views(r@) == seq![node.orb@] + flat_children(*node, i as nat),
        decreases node.children@.len() - i,
    {
        let ghost before = views(r@);
        let mut below = flatten(&node.children[i]);
        let ghost more = views(below@);
        r.append(&mut below);
        assert(views(r@) =~= before + more);
        i += 1;
        assert(views(r@) =~= seq![node.orb@] + flat_children(*node, i as nat));
    }
    r
}

/// The height over some of the children is at most the height.
proof fn lemma_height_over(node: OrbNode, n: nat)
    requires
        n <= node.children@.len(),
    ensures
        height_over(node, n) <= height(node),
        n > 0 ==> height(node.children@[n - 1]) + 1 <= height(node),
    decreases node.children@.len() - n,
{
    if n < node.children@.len() {
        lemma_height_over(node, n + 1);
    }
}

/// The parent of the orb with the given identifier.
pub open spec fn parent_of(orbs: Seq<OrbView>, id: Seq<char>) -> Option<Seq<char>> {
    match orb_named(orbs, id) {
        Some(o) => o.parent_id,
        None => None,
    }
}

/// What is reached from an orb by going up `n` times.
spec fn ancestor(orbs: Seq<OrbView>, id: Seq<char>, n: nat) -> Option<Seq<char>>
    decreases n,
{
    if n == 0 {
        Some(id)
    } else {
        match ancestor(orbs, id, (n - 1) as nat) {
            Some(c) => parent_of(orbs, c),
            None => None,
        }
    }
}

/// Whether no identifier occurs twice.
pub open spec fn ids_differ(orbs: Seq<OrbView>) -> bool {
    forall|i: int, j: int|
        0 <= i < j < orbs.len() ==> (#[trigger] orbs[i]).id != (#[trigger] orbs[j]).id
}

/// Where identifiers differ, an orb is the one with its identifier.
proof fn lemma_named(orbs: Seq<OrbView>, i: int)
    requires
        ids_differ(orbs),
        0 <= i < orbs.len(),
    ensures
        orb_named(orbs, orbs[i].id) == Some(orbs[i]),
    decreases orbs.len(),
{
    if i < orbs.len() - 1 {
        assert(orbs[i].id != orbs[orbs.len() - 1].id);
        let d = orbs.drop_last();
        assert forall|a: int, b: int| 0 <= a < b < d.len() implies (#[trigger] d[a]).id != (
        #[trigger] d[b]).id by {
            assert(orbs[a].id != orbs[b].id);
        }
        assert(d[i] == orbs[i]);
        lemma_named(d, i);
    }
}

/// The start of an arc is the parent of its end.
proof fn lemma_arc_parent(orbs: Seq<OrbView>, p: Seq<char>, c: Seq<char>)
    requires
        ids_differ(orbs),
        child_graph(orbs).contains((p, c)),
    ensures
        parent_of(orbs, c) == Some(p),
        exists|i: int| 0 <= i < orbs.len() && (#[trigger] orbs[i]).id == c,
{
    let i = choose|i: int|
        0 <= i < orbs.len() && (#[trigger] orbs[i]).parent_id == Some(p) && orbs[i].id == c;
    lemma_named(orbs, i);
}

/// The parent of an orb is joined to it.
proof fn lemma_parent_arc(orbs: Seq<OrbView>, p: Seq<char>, c: Seq<char>)
    requires
        parent_of(orbs, c) == Some(p),
    ensures
        child_graph(orbs).contains((p, c)),
{
    let o = orb_named(orbs, c)->0;
    crate::log::lemma_latest::<Orb>(orbs, c);
    lemma_latest_in(orbs, c);
    let i = choose|i: int| 0 <= i < orbs.len() && orbs[i] == o;
    assert(orbs[i].parent_id == Some(p));
}

/// The orb with an identifier is in the list.
proof fn lemma_latest_in(orbs: Seq<OrbView>, id: Seq<char>)
    ensures
        orb_named(orbs, id) matches Some(o) ==> exists|i: int| 0 <= i < orbs.len() && orbs[i] == o,
    decreases orbs.len(),
{
    if orbs.len() > 0 {
        lemma_latest_in(orbs.drop_last(), id);
        if orbs.last().id == id {
            assert(orbs[orbs.len() - 1] == orbs.last());
        } else if orb_named(orbs, id) is Some {
            let o = orb_named(orbs, id)->0;
            let i = choose|i: int| 0 <= i < orbs.drop_last().len() && orbs.drop_last()[i] == o;
            assert(orbs[i] == o);
        }
    }
}

/// Where a way down comes to an orb twice it comes back to its start.
proof fn lemma_back_to_start(orbs: Seq<OrbView>, w: Seq<Seq<char>>, i: int, j: int)
    requires
        ids_differ(orbs),
        is_walk(child_graph(orbs), w),
        0 <= i < j < w.len(),
        w[i] == w[j],
    ensures
        w[j - i] == w[0],
    decreases i,
{
    if i > 0 {
        let g = child_graph(orbs);
        assert(joined_at(g, w, i - 1));
        assert(joined_at(g, w, j - 1));
        lemma_arc_parent(orbs, w[i - 1], w[i]);
        lemma_arc_parent(orbs, w[j - 1], w[j]);
        lemma_back_to_start(orbs, w, i - 1, j - 1);
    }
}

/// Going up retraces a way down.
proof fn lemma_retrace(orbs: Seq<OrbView>, w: Seq<Seq<char>>, n: nat)
    requires
        ids_differ(orbs),
        is_walk(child_graph(orbs), w),
        n < w.len(),
    ensures
        ancestor(orbs, w.last(), n) == Some(w[w.len() - 1 - n]),
    decreases n,
{
    if n > 0 {
        lemma_retrace(orbs, w, (n - 1) as nat);
        assert(joined_at(child_graph(orbs), w, w.len() - 1 - n));
        lemma_arc_parent(orbs, w[w.len() - 1 - n], w[w.len() - n]);
    }
}

/// A list of different identifiers of orbs is no longer than the list of orbs.
proof fn lemma_no_longer(orbs: Seq<OrbView>, s: Seq<Seq<char>>)
    requires
        s.no_duplicates(),
        forall|i: int|
            0 <= i < s.len() ==> exists|j: int|
                0 <= j < orbs.len() && (#[trigger] orbs[j]).id == #[trigger] s[i],
    ensures
        s.len() <= orbs.len(),
{
    let ids = orbs.map_values(|o: OrbView| o.id);
    s.unique_seq_to_set();
    ids.lemma_cardinality_of_set();
    vstd::seq_lib::seq_to_set_is_finite(ids);
    assert(s.to_set().subset_of(ids.to_set())) by {
        assert forall|x: Seq<char>| s.to_set().contains(x) implies ids.to_set().contains(x) by {
            let i = choose|i: int| 0 <= i < s.len() && s[i] == x;
            assert(s[i] == x);
            let j = choose|j: int| 0 <= j < orbs.len() && (#[trigger] orbs[j]).id == s[i];
            assert(ids[j] == x);
        }
    }
    vstd::set_lib::lemma_len_subset(s.to_set(), ids.to_set());
}

/// Where a way down leads back to its start, so does going up, in no more steps than there
/// are orbs.
proof fn lemma_cycle_found(orbs: Seq<OrbView>, w: Seq<Seq<char>>) -> (n: nat)
    requires
        ids_differ(orbs),
        is_walk(child_graph(orbs), w),
        w.len() >= 2,
        w[0] == w.last(),
    ensures
        1 <= n <= orbs.len(),
        ancestor(orbs, w[0], n) == Some(w[0]),
    decreases w.len(),
{
    let g = child_graph(orbs);
    let n = (w.len() - 1) as nat;
    let around = w.drop_first();
    assert forall|i: int| 0 <= i < around.len() implies exists|j: int|
        0 <= j < orbs.len() && (#[trigger] orbs[j]).id == #[trigger] around[i] by {
        assert(joined_at(g, w, i));
        lemma_arc_parent(orbs, w[i], w[i + 1]);
    }
    if around.no_duplicates() {
        lemma_no_longer(orbs, around);
        lemma_retrace(orbs, w, n);
        n
    } else {
        let (a, b) = choose|a: int, b: int|
            0 <= a < around.len() && 0 <= b < around.len() && a != b && around[a] == around[b];
        let (i, j) = if a < b {
            (a + 1, b + 1)
        } else {
            (b + 1, a + 1)
        };
        lemma_back_to_start(orbs, w, i, j);
        let v = w.subrange(0, j - i + 1);
        crate::graph::lemma_part_of_walk(g, w, 0, j - i + 1);
        assert(v[0] == w[0] && v.last() == w[j - i]);
        lemma_cycle_found(orbs, v)
    }
}

/// Going up `n` times, read the other way, is a way down.
proof fn lemma_way_down(orbs: Seq<OrbView>, id: Seq<char>, n: nat) -> (w: Seq<Seq<char>>)
    requires
        ancestor(orbs, id, n) is Some,
    ensures
        is_walk(child_graph(orbs), w),
        w.len() == n + 1,
        w[0] == ancestor(orbs, id, n)->0,
        w.last() == id,
    decreases n,
{
    if n == 0 {
        seq![id]
    } else {
        let g = child_graph(orbs);
        let c = ancestor(orbs, id, (n - 1) as nat)->0;
        let p = ancestor(orbs, id, n)->0;
        let v = lemma_way_down(orbs, id, (n - 1) as nat);
        lemma_parent_arc(orbs, p, c);
        let w = seq![p] + v;
        assert forall|i: int| 0 <= i < w.len() - 1 implies #[trigger] joined_at(g, w, i) by {
            if i > 0 {
                assert(joined_at(g, v, i - 1));
            }
        }
        w
    }
}

/// The orb with the given identifier.
fn find_by_id<'a>(orbs: &'a Vec<Orb>, id: &OrbId) -> (r: Option<&'a Orb>)
    requires
        ids_differ(views(orbs@)),
    ensures
        match r {
            Some(o) => orb_named(views(orbs@), id@) == Some(o@),
            None => orb_named(views(orbs@), id@) is None,
        },
{
    let ghost os = views(orbs@);
    let mut i: usize = 0;
    while i < orbs.len()
        invariant
            i <= orbs@.len(),
            os == views(orbs@),
            ids_differ(os),
            forall|j: int| 0 <= j < i ==> (#[trigger] os[j]).id != id@,
        decreases orbs@.len() - i,
    {
        assert(os[i as int] == orbs@[i as int]@);
        if orbs[i].id == *id {
            proof {
                lemma_named(os, i as int);
            }
            return Some(&orbs[i]);
        }
        i += 1;
    }
    proof {
        lemma_latest_in(os, id@);
        crate::log::lemma_latest::<Orb>(os, id@);
    }
    None
}

/// Whether no way down from the orb comes to the same orb twice.
fn tree_below(orbs: &Vec<Orb>, root: &OrbId) -> (r: bool)
    requires
        ids_differ(views(orbs@)),
    ensures
        r == is_tree_below(views(orbs@), root@),
{
    let ghost os = views(orbs@);
    let ghost g = child_graph(os);
    let mut current = root.clone();
    let mut n: usize = 0;
    let mut ended: bool = false;
    while n < orbs.len() && !ended
        invariant
            n <= orbs@.len(),
            os == views(orbs@),
            g == child_graph(os),
            ids_differ(os),
            !ended ==> ancestor(os, root@, n as nat) == Some(current@),
            ended ==> ancestor(os, root@, n as nat) is None,
            forall|k: nat|
                1 <= k <= n ==> #[trigger] ancestor(os, root@, k) != Some(root@),
        decreases orbs@.len() - n,
    {
        n += 1;
        match find_by_id(orbs, &current) {
            Some(o) => match &o.parent_id {
                Some(p) => {
                    if *p == *root {
                        proof {
                            let w = lemma_way_down(os, root@, n as nat);
                            assert(!w.no_duplicates());
                        }
                        return false;
                    }
                    current = p.clone();
                },
                None => {
                    ended = true;
                },
            },
            None => {
                ended = true;
            },
        }
    }
    proof {
        assert forall|w: Seq<Seq<char>>| #[trigger]
            is_walk(g, w) && w[0] == root@ implies w.no_duplicates() by {
            if !w.no_duplicates() {
                let (a, b) = choose|a: int, b: int|
                    0 <= a < w.len() && 0 <= b < w.len() && a != b && w[a] == w[b];
                let (i, j) = if a < b {
                    (a, b)
                } else {
                    (b, a)
                };
                lemma_back_to_start(os, w, i, j);
                let v = w.subrange(0, j - i + 1);
                crate::graph::lemma_part_of_walk(g, w, 0, j - i + 1);
                let k = lemma_cycle_found(os, v);
                if ended && k >= n {
                    lemma_ended(os, root@, n as nat, k);
                }
            }
        }
    }
    true
}

/// Once there is no way up there is none further up.
proof fn lemma_ended(orbs: Seq<OrbView>, id: Seq<char>, n: nat, k: nat)
    requires
        ancestor(orbs, id, n) is None,
        n <= k,
    ensures
        ancestor(orbs, id, k) is None,
    decreases k,
{
    if n < k {
        lemma_ended(orbs, id, n, (k - 1) as nat);
    }
}

/// Builds a node and its children.
fn build_node(
    orb: Orb,
    orbs: &Vec<Orb>,
    depth: usize,
    fuel: usize,
    path: Ghost<Seq<Seq<char>>>,
) -> (node: OrbNode)
    requires
        is_tree_below(views(orbs@), path@[0]),
        is_walk(child_graph(views(orbs@)), path@),
        path@.last() == orb@.id,
        path@.len() == depth + 1,
        depth + fuel == orbs@.len(),
        forall|i: int|
            0 <= i < path@.len() ==> exists|j: int|
                0 <= j < views(orbs@).len() && (#[trigger] views(orbs@)[j]).id
                    == #[trigger] path@[i],
    ensures
        node.orb@ == orb@,
        is_tree_of(node, views(orbs@), depth as int),
        height(node) <= fuel,
    decreases fuel,
{
    let ghost os = views(orbs@);
    let ghost g = child_graph(os);
    let ghost pred = |o: OrbView| o.parent_id == Some(orb@.id);
    let mut children: Vec<OrbNode> = Vec::new();
    let mut i: usize = 0;
    proof {
        lemma_no_longer(os, path@);
        reveal(Seq::filter);
    }
    while i < orbs.len()
        invariant
            i <= orbs@.len(),
            os == views(orbs@),
            g == child_graph(os),
            pred == (|o: OrbView| o.parent_id == Some(orb@.id)),
            is_tree_below(os, path@[0]),
            is_walk(g, path@),
            path@.last() == orb@.id,
            path@.len() == depth + 1,
            depth + fuel == orbs@.len(),
            fuel >= 1,
            forall|i: int|
                0 <= i < path@.len() ==> exists|j: int|
                    0 <= j < os.len() && (#[trigger] os[j]).id == #[trigger] path@[i],
            children@.len() == os.take(i as int).filter(pred).len(),
            forall|c: int|
                0 <= c < children@.len() ==> (#[trigger] children@[c]).orb@ == os.take(
                    i as int,
                ).filter(pred)[c] && is_tree_of(children@[c], os, depth + 1) && height(children@[c])
                    <= fuel - 1,
        decreases orbs@.len() - i,
    {
        let ghost before = os.take(i as int).filter(pred);
        let o = &orbs[i];
        assert(os[i as int] == o@);
        proof {
            reveal(Seq::filter);
            assert(os.take(i + 1).drop_last() =~= os.take(i as int));
            assert(os.take(i + 1).last() == o@);
        }
        if opt_id_is(&o.parent_id, &orb.id) {
            let ghost longer = path@.push(o@.id);
            proof {
                assert(g.contains((orb@.id, o@.id)));
                assert forall|k: int| 0 <= k < longer.len() - 1 implies #[trigger] joined_at(
                    g,
                    longer,
                    k,
                ) by {
                    if k < path@.len() - 1 {
                        assert(joined_at(g, path@, k));
                    }
                }
                assert(longer[0] == path@[0]);
                assert forall|k: int| 0 <= k < longer.len() implies exists|j: int|
                    0 <= j < os.len() && (#[trigger] os[j]).id == #[trigger] longer[k] by {
                    if k < path@.len() {
                        assert(longer[k] == path@[k]);
                    } else {
                        assert(os[i as int].id == longer[k]);
                    }
                }
            }
            let child = build_node(o.clone(), orbs, depth + 1, fuel - 1, Ghost(longer));
            children.push(child);
        }
        i += 1;
    }
    assert(os.take(i as int) =~= os);
    let node = OrbNode { orb, children, depth };
    proof {
        lemma_height_bound(node, (fuel - 1) as nat, node.children@.len());
    }
    node
}

/// A tree is at most one step higher than the trees of its children.
proof fn lemma_height_bound(node: OrbNode, h: nat, n: nat)
    requires
        n <= node.children@.len(),
        forall|c: int| 0 <= c < node.children@.len() ==> height(#[trigger] node.children@[c]) <= h,
    ensures
        height_over(node, n) <= h + 1,
    decreases n,
{
    if n > 0 {
        lemma_height_bound(node, h, (n - 1) as nat);
    }
}

/// Whether no way down from the orb comes to the same orb twice, so that its tree is finite.
pub fn can_build_tree(store: &OrbStore, root_id: &OrbId) -> (r: bool)
    ensures
        r == is_tree_below(store@.live(), root_id@),
{
    let orbs = store.load_all();
    proof {
        lemma_live_ids_differ(store@);
    }
    tree_below(&orbs, root_id)
}

/// No two live orbs have the same identifier.
proof fn lemma_live_ids_differ(store: OrbStoreView)
    ensures
        ids_differ(store.live()),
{
    crate::orb_store::law_live_is_found(store, arbitrary());
}

/// Builds a tree of `OrbNode`s from `parent_id` relationships.
///
/// Returns `None` if `root_id` is not found in the store.
pub fn build_orb_tree(store: &OrbStore, root_id: &OrbId) -> (r: Option<OrbNode>)
    requires
        is_tree_below(store@.live(), root_id@),
    ensures
        match r {
            Some(node) => store@.find(root_id@) == Some(node.orb@) && is_tree_of(
                node,
                store@.live(),
                0,
            ) && height(node) <= usize::MAX,
            None => store@.find(root_id@) is None,
        },
{
    let orbs = store.load_all();
    let ghost os = views(orbs@);
    proof {
        lemma_live_ids_differ(store@);
        crate::log::lemma_latest::<Orb>(os, root_id@);
        lemma_latest_in(os, root_id@);
    }
    match find_by_id(&orbs, root_id) {
        Some(o) => {
            let root = o.clone();
            let count: usize = orbs.len();
            proof {
                let i = choose|i: int| 0 <= i < os.len() && os[i] == root@;
                assert(os.contains(os[i]));
                crate::orb_store::law_live_is_found(store@, root@);
                assert(is_walk(child_graph(os), seq![root_id@]));
            }
            let ghost path = seq![root_id@];
            let node = build_node(root, &orbs, 0, count, Ghost(path));
            Some(node)
        },
        None => {
            proof {
                if store@.find(root_id@) is Some {
                    let o = store@.find(root_id@)->0;
                    crate::log::lemma_latest::<Orb>(store@.log, root_id@);
                    crate::orb_store::law_live_is_found(store@, o);
                    let i = choose|i: int| 0 <= i < os.len() && os[i] == o;
                    lemma_named(os, i);
                }
            }
            None
        },
    }
}

/// Builds a tree of `OrbNode`s from a store that may not have been readable.
///
/// Returns `None` if the store cannot be read or the root orb is missing.
pub fn build_orb_tree_of(store: Option<&OrbStore>, root_id: &OrbId) -> (r: Option<OrbNode>)
    requires
        store matches Some(s) ==> is_tree_below(s@.live(), root_id@),
    ensures
        store is None ==> r is None,
        store matches Some(s) ==> match r {
            Some(node) => s@.find(root_id@) == Some(node.orb@) && is_tree_of(node, s@.live(), 0)
                && height(node) <= usize::MAX,
            None => s@.find(root_id@) is None,
        },
{
    match store {
        Some(s) => build_orb_tree(s, root_id),
        None => None,
    }
}

/// Whether one of two orbs blocks the other.
pub open spec fn linked(g: Set<(Seq<char>, Seq<char>)>, a: Seq<char>, b: Seq<char>) -> bool {
    g.contains((a, b)) || g.contains((b, a))
}

/// The longest chain of orbs from the root of a tree down, each a child of the one before it
/// and linked with it by a blocking edge. Among chains of the same length it goes through
/// the first child.
pub open spec fn critical(g: Set<(Seq<char>, Seq<char>)>, node: OrbNode) -> Seq<OrbView>
    decreases node, node.children@.len() + 1,
{
    seq![node.orb@] + critical_below(g, node, node.children@.len())
}

/// The longest such chain from one of the first `n` children.
pub open spec fn critical_below(g: Set<(Seq<char>, Seq<char>)>, node: OrbNode, n: nat) -> Seq<
    OrbView,
>
    decreases node, n,
{
    if n == 0 || n > node.children@.len() {
        Seq::empty()
    } else {
        let before = critical_below(g, node, (n - 1) as nat);
        let child = node.children@[n - 1];
        let here = critical(g, child);
        if linked(g, node.orb@.id, child.orb@.id) && here.len() > before.len() {
            here
        } else {
            before
        }
    }
}

/// Whether the steps (each the place of a child) lead down a tree over linked orbs.
pub open spec fn is_chain(g: Set<(Seq<char>, Seq<char>)>, node: OrbNode, steps: Seq<int>) -> bool
    decreases steps.len(),
{
    steps.len() == 0 || {
        &&& 0 <= steps[0] < node.children@.len()
        &&& linked(g, node.orb@.id, node.children@[steps[0]].orb@.id)
        &&& is_chain(g, node.children@[steps[0]], steps.drop_first())
    }
}

/// The orbs on the way that the steps take.
pub open spec fn chain_orbs(node: OrbNode, steps: Seq<int>) -> Seq<OrbView>
    decreases steps.len(),
{
    if steps.len() == 0 {
        seq![node.orb@]
    } else {
        seq![node.orb@] + chain_orbs(node.children@[steps[0]], steps.drop_first())
    }
}

/// Whether one of two orbs blocks the other.
fn are_linked(edges: &Vec<DepEdge>, a: &OrbId, b: &OrbId) -> (r: bool)
    ensures
        r == linked(blocking_graph(views(edges@)), a@, b@),
{
    let ghost es = views(edges@);
    let ghost g = blocking_graph(es);
    let mut i: usize = 0;
    while i < edges.len()
        invariant
            i <= edges@.len(),
            es == views(edges@),
            g == blocking_graph(es),
            forall|j: int|
                0 <= j < i && (#[trigger] es[j]).edge_type.blocks() ==> arc(es[j]) != (a@, b@)
                    && arc(es[j]) != (b@, a@),
        decreases edges@.len() - i,
    {
        let e = &edges[i];
        assert(es[i as int] == e@);
        if e.edge_type.is_blocking() && ((e.from == *a && e.to == *b) || (e.from == *b && e.to
            == *a)) {
            assert(g.contains(arc(es[i as int])));
            return true;
        }
        i += 1;
    }
    false
}

/// Finds the longest blocking path.
fn find_critical_path<'a>(node: &'a OrbNode, edges: &Vec<DepEdge>) -> (r: Vec<&'a Orb>)
    ensures
        views(r@) == critical(blocking_graph(views(edges@)), *node),
    decreases node,
{
    let ghost g = blocking_graph(views(edges@));
    let mut longest: Vec<&Orb> = Vec::new();
    let mut i: usize = 0;
    assert(views(longest@) =~= critical_below(g, *node, 0));
    while i < node.children.len()
        invariant
            i <= node.children@.len(),
            g == blocking_graph(views(edges@)),
            views(longest@) == critical_below(g, *node, i as nat),
        decreases node.children@.len() - i,
    {
        let child = &node.children[i];
        if are_linked(edges, &node.orb.id, &child.orb.id) {
            let path = find_critical_path(child, edges);
            assert(views(path@).len() == path@.len());
            assert(views(longest@).len() == longest@.len());
            if path.len() > longest.len() {
                longest = path;
            }
        }
        i += 1;
    }
    let mut r: Vec<&Orb> = Vec::new();
    r.push(&node.orb);
    let ghost below = views(longest@);
    r.append(&mut longest);
    assert(views(r@) =~= seq![node.orb@] + below);
    r
}

/// Returns the longest chain of blocking dependencies from root to a leaf.
///
/// Walks the tree following only children that have a blocking dependency relationship
/// (`Blocks` or `DependsOn`) with their parent in the dep store.
pub fn critical_path<'a>(node: &'a OrbNode, dep_store: &DepStore) -> (r: Vec<&'a Orb>)
    ensures
        views(r@) == critical(dep_store@.graph(), *node),
{
    let edges = dep_store.all_edges();
    find_critical_path(node, &edges)
}

/// Returns the longest chain of blocking dependencies, where the dependency edges may not have
/// been readable.
///
/// Returns an empty vec if the edges cannot be loaded.
pub fn critical_path_of<'a>(node: &'a OrbNode, deps: Option<&DepStore>) -> (r: Vec<&'a Orb>)
    ensures
        deps is None ==> r@.len() == 0,
        deps matches Some(d) ==> views(r@) == critical(d@.graph(), *node),
{
    match deps {
        Some(d) => critical_path(node, d),
        None => Vec::new(),
    }
}

/// The critical path is a chain of linked orbs, and no chain is longer.
pub proof fn law_critical_is_longest(g: Set<(Seq<char>, Seq<char>)>, node: OrbNode)
    ensures
        exists|steps: Seq<int>| #[trigger]
            is_chain(g, node, steps) && chain_orbs(node, steps) == critical(g, node),
        forall|steps: Seq<int>| #[trigger]
            is_chain(g, node, steps) ==> steps.len() + 1 <= critical(g, node).len(),
    decreases node,
{
    let n = node.children@.len();
    if critical_below(g, node, n).len() == 0 {
        let none = Seq::<int>::empty();
        assert(is_chain(g, node, none));
        assert(chain_orbs(node, none) =~= critical(g, node));
    } else {
        let c = lemma_critical_below(g, node, n);
        let child = node.children@[c];
        law_critical_is_longest(g, child);
        let rest = choose|steps: Seq<int>| #[trigger]
            is_chain(g, child, steps) && chain_orbs(child, steps) == critical(g, child);
        let steps = seq![c] + rest;
        assert(steps.drop_first() =~= rest);
        assert(is_chain(g, node, steps));
        assert(chain_orbs(node, steps) =~= critical(g, node));
    }
    assert forall|steps: Seq<int>| #[trigger] is_chain(g, node, steps) implies steps.len() + 1
        <= critical(g, node).len() by {
        if steps.len() > 0 {
            let c = steps[0];
            law_critical_is_longest(g, node.children@[c]);
            assert(is_chain(g, node.children@[c], steps.drop_first()));
            lemma_critical_over(g, node, n, c);
        }
    }
}

/// Where the longest chain below a node is not empty it starts at a linked child.
proof fn lemma_critical_below(g: Set<(Seq<char>, Seq<char>)>, node: OrbNode, n: nat) -> (c: int)
    requires
        n <= node.children@.len(),
        critical_below(g, node, n).len() > 0,
    ensures
        0 <= c < n,
        linked(g, node.orb@.id, node.children@[c].orb@.id),
        critical_below(g, node, n) == critical(g, node.children@[c]),
    decreases n,
{
    let before = critical_below(g, node, (n - 1) as nat);
    let child = node.children@[n - 1];
    if linked(g, node.orb@.id, child.orb@.id) && critical(g, child).len() > before.len() {
        n - 1
    } else {
        lemma_critical_below(g, node, (n - 1) as nat)
    }
}

/// The longest chain below a node is at least as long as that from any linked child.
proof fn lemma_critical_over(g: Set<(Seq<char>, Seq<char>)>, node: OrbNode, n: nat, c: int)
    requires
        0 <= c < n <= node.children@.len(),
        linked(g, node.orb@.id, node.children@[c].orb@.id),
    ensures
        critical_below(g, node, n).len() >= critical(g, node.children@[c]).len(),
    decreases n,
{
    if c < n - 1 {
        lemma_critical_over(g, node, (n - 1) as nat, c);
    }
}

/// Whether an edge starts or ends at one of the orbs.
pub open spec fn touches(orbs: Seq<OrbView>, e: DepEdgeView) -> bool {
    exists|i: int|
        0 <= i < orbs.len() && ((#[trigger] orbs[i]).id == e.from || orbs[i].id == e.to)
}

/// Whether an edge starts or ends at one of the orbs.
fn edge_touches(orbs: &Vec<&Orb>, e: &DepEdge) -> (r: bool)
    ensures
        r == touches(views(orbs@), e@),
{
    let ghost os = views(orbs@);
    let mut i: usize = 0;
    while i < orbs.len()
        invariant
            i <= orbs@.len(),
            os == views(orbs@),
            forall|j: int|
                0 <= j < i ==> (#[trigger] os[j]).id != e@.from && os[j].id != e@.to,
        decreases orbs@.len() - i,
    {
        assert(os[i as int] == orbs@[i as int]@);
        if orbs[i].id == e.from || orbs[i].id == e.to {
            return true;
        }
        i += 1;
    }
    false
}

/// Whether `t` is the timeline of the orb with the given identifier.
pub open spec fn is_timeline(
    t: FullTimeline,
    store: OrbStoreView,
    deps: DepStoreView,
    root_id: Seq<char>,
) -> bool {
    &&& store.find(root_id) == Some(t.root.orb@)
    &&& is_tree_of(t.root, store.live(), 0)
    &&& views(t.dep_edges@) == deps.active().filter(
        |e: DepEdgeView| touches(flat(t.root), e),
    )
    &&& t.total_orbs == flat(t.root).len()
    &&& t.max_depth == height(t.root)
}

/// Builds a full timeline combining tree structure with dependency edges.
///
/// Returns `None` if the root orb is not found.
pub fn build_full_timeline(store: &OrbStore, dep_store: &DepStore, root_id: &OrbId) -> (r: Option<
    FullTimeline,
>)
    requires
        is_tree_below(store@.live(), root_id@),
    ensures
        match r {
            Some(t) => is_timeline(t, store@, dep_store@, root_id@),
            None => store@.find(root_id@) is None,
        },
{
    let root = match build_orb_tree(store, root_id) {
        Some(root) => root,
        None => {
            return None;
        },
    };
    let all_orbs = flatten(&root);
    let all_edges = dep_store.all_edges();
    let ghost pred = |e: DepEdgeView| touches(flat(root), e);
    let f = |e: &DepEdge| -> (b: bool)
        ensures
            b == touches(views(all_orbs@), e@),
    {
        edge_touches(&all_orbs, e)
    };
    let dep_edges = keep(&all_edges, f, Ghost(pred));
    let total_orbs: usize = all_orbs.len();
    assert(views(all_orbs@).len() == all_orbs@.len());
    let max_depth: usize = depth(&root);
    Some(FullTimeline { root, dep_edges, total_orbs, max_depth })
}

/// Builds a full timeline from stores that may not have been readable.
///
/// Returns `None` if one of the stores cannot be read or the root orb is not found.
pub fn build_full_timeline_of(
    store: Option<&OrbStore>,
    deps: Option<&DepStore>,
    root_id: &OrbId,
) -> (r: Option<FullTimeline>)
    requires
        store matches Some(s) ==> is_tree_below(s@.live(), root_id@),
    ensures
        store is None || deps is None ==> r is None,
        store matches Some(s) ==> (deps matches Some(d) ==> match r {
            Some(t) => is_timeline(t, s@, d@, root_id@),
            None => s@.find(root_id@) is None,
        }),
{
    match (store, deps) {
        (Some(s), Some(d)) => build_full_timeline(s, d, root_id),
        _ => None,
    }
}

/// A tree starts with its root, and its leaves are among its orbs.
pub proof fn law_leaves_in_flat(node: OrbNode)
    ensures
        flat(node).len() >= 1,
        flat(node)[0] == node.orb@,
        leaf_orbs(node).len() >= 1,
        forall|o: OrbView| #[trigger] leaf_orbs(node).contains(o) ==> flat(node).contains(o),
    decreases node, node.children@.len() + 1,
{
    let n = node.children@.len();
    if n == 0 {
        assert forall|o: OrbView| #[trigger] leaf_orbs(node).contains(o) implies flat(
            node,
        ).contains(o) by {
            assert(flat(node)[0] == o);
        }
        assert(leaf_orbs(node)[0] == node.orb@);
    } else {
        lemma_leaves_in_flat(node, n);
        assert forall|o: OrbView| #[trigger] leaf_orbs(node).contains(o) implies flat(
            node,
        ).contains(o) by {
            let below = flat_children(node, n);
            assert(below.contains(o));
            let i = choose|i: int| 0 <= i < below.len() && below[i] == o;
            assert(flat(node)[i + 1] == o);
        }
    }
}

/// The leaves below some of the children are among the orbs there.
proof fn lemma_leaves_in_flat(node: OrbNode, n: nat)
    requires
        n <= node.children@.len(),
    ensures
        n > 0 ==> leaves_of_children(node, n).len() >= 1,
        forall|o: OrbView| #[trigger]
            leaves_of_children(node, n).contains(o) ==> flat_children(node, n).contains(o),
    decreases node, n,
{
    if n > 0 {
        let child = node.children@[n - 1];
        lemma_leaves_in_flat(node, (n - 1) as nat);
        law_leaves_in_flat(child);
        let before = leaves_of_children(node, (n - 1) as nat);
        let flat_before = flat_children(node, (n - 1) as nat);
        assert forall|o: OrbView| #[trigger]
            leaves_of_children(node, n).contains(o) implies flat_children(node, n).contains(o) by {
            let l = leaves_of_children(node, n);
            let i = choose|i: int| 0 <= i < l.len() && l[i] == o;
            if i < before.len() {
                assert(before[i] == o);
                assert(before.contains(o));
                let j = choose|j: int| 0 <= j < flat_before.len() && flat_before[j] == o;
                assert(flat_children(node, n)[j] == o);
            } else {
                assert(leaf_orbs(child)[i - before.len()] == o);
                assert(leaf_orbs(child).contains(o));
                let j = choose|j: int| 0 <= j < flat(child).len() && flat(child)[j] == o;
                assert(flat_children(node, n)[flat_before.len() + j] == o);
            }
        }
    }
}

/// What the trees of the first `n` children hold is in the tree of one of them.
proof fn lemma_in_child(node: OrbNode, n: nat, o: OrbView) -> (c: int)
    requires
        n <= node.children@.len(),
        flat_children(node, n).contains(o),
    ensures
        0 <= c < n,
        flat(node.children@[c]).contains(o),
    decreases n,
{
    let all = flat_children(node, n);
    let i = choose|i: int| 0 <= i < all.len() && all[i] == o;
    let before = flat_children(node, (n - 1) as nat);
    if i < before.len() {
        assert(before[i] == o);
        lemma_in_child(node, (n - 1) as nat, o)
    } else {
        assert(flat(node.children@[n - 1])[i - before.len()] == o);
        n - 1
    }
}

/// What the tree of a child holds is in the trees of the children.
proof fn lemma_child_in(node: OrbNode, n: nat, c: int, o: OrbView)
    requires
        0 <= c < n <= node.children@.len(),
        flat(node.children@[c]).contains(o),
    ensures
        flat_children(node, n).contains(o),
    decreases n,
{
    let all = flat_children(node, n);
    let before = flat_children(node, (n - 1) as nat);
    if c == n - 1 {
        let below = flat(node.children@[c]);
        let i = choose|i: int| 0 <= i < below.len() && below[i] == o;
        assert(all[before.len() + i] == o);
    } else {
        lemma_child_in(node, (n - 1) as nat, c, o);
        let i = choose|i: int| 0 <= i < before.len() && before[i] == o;
        assert(all[i] == o);
    }
}

/// What a tree holds is in the list of orbs and can be reached from its root.
proof fn lemma_flat_reached(node: OrbNode, orbs: Seq<OrbView>, depth: int, o: OrbView)
    requires
        is_tree_of(node, orbs, depth),
        orbs.contains(node.orb@),
        flat(node).contains(o),
    ensures
        orbs.contains(o),
        reaches(child_graph(orbs), node.orb@.id, o.id),
    decreases node,
{
    let g = child_graph(orbs);
    let all = flat(node);
    let i = choose|i: int| 0 <= i < all.len() && all[i] == o;
    lemma_reaches_self(g, node.orb@.id);
    if i > 0 {
        let below = flat_children(node, node.children@.len());
        assert(below[i - 1] == o);
        let c = lemma_in_child(node, node.children@.len(), o);
        let child = node.children@[c];
        let pred = |x: OrbView| x.parent_id == Some(node.orb@.id);
        lemma_filter(orbs, pred);
        assert(child.orb@ == children_of(orbs, node.orb@.id)[c]);
        assert(children_of(orbs, node.orb@.id).contains(child.orb@));
        assert(pred(child.orb@));
        lemma_flat_reached(child, orbs, depth + 1, o);
        let k = choose|k: int| 0 <= k < orbs.len() && orbs[k] == child.orb@;
        assert(orbs[k].parent_id == Some(node.orb@.id));
        assert(g.contains((node.orb@.id, child.orb@.id)));
        lemma_reaches_step(g, node.orb@.id, node.orb@.id, child.orb@.id);
        lemma_reaches_trans(g, node.orb@.id, child.orb@.id, o.id);
    }
}

/// What can be reached from the root of a tree is in it.
proof fn lemma_reached_flat(
    node: OrbNode,
    orbs: Seq<OrbView>,
    depth: int,
    w: Seq<Seq<char>>,
    o: OrbView,
)
    requires
        is_tree_of(node, orbs, depth),
        ids_differ(orbs),
        orbs.contains(node.orb@),
        orbs.contains(o),
        is_walk(child_graph(orbs), w),
        w[0] == node.orb@.id,
        w.last() == o.id,
    ensures
        flat(node).contains(o),
    decreases w.len(),
{
    let g = child_graph(orbs);
    if w.len() == 1 {
        let i = choose|i: int| 0 <= i < orbs.len() && orbs[i] == node.orb@;
        let j = choose|j: int| 0 <= j < orbs.len() && orbs[j] == o;
        if i < j {
            assert(orbs[i].id != orbs[j].id);
        } else if j < i {
            assert(orbs[j].id != orbs[i].id);
        }
        assert(flat(node)[0] == o);
    } else {
        assert(joined_at(g, w, 0));
        let k = choose|k: int|
            0 <= k < orbs.len() && (#[trigger] orbs[k]).parent_id == Some(w[0]) && orbs[k].id
                == w[1];
        let pred = |x: OrbView| x.parent_id == Some(node.orb@.id);
        let kids = children_of(orbs, node.orb@.id);
        lemma_filter(orbs, pred);
        assert(orbs.contains(orbs[k]));
        assert(kids.contains(orbs[k]));
        let c = choose|c: int| 0 <= c < kids.len() && kids[c] == orbs[k];
        let child = node.children@[c];
        assert(child.orb@ == kids[c]);
        let rest = w.drop_first();
        crate::graph::lemma_part_of_walk(g, w, 1, w.len() as int);
        assert(rest =~= w.subrange(1, w.len() as int));
        lemma_reached_flat(child, orbs, depth + 1, rest, o);
        lemma_child_in(node, node.children@.len(), c, o);
        let below = flat_children(node, node.children@.len());
        let i = choose|i: int| 0 <= i < below.len() && below[i] == o;
        assert(flat(node)[i + 1] == o);
    }
}

/// The tree of an orb holds exactly the orb and its descendants.
pub proof fn law_flat_is_descendants(node: OrbNode, orbs: Seq<OrbView>, depth: int, o: OrbView)
    requires
        is_tree_of(node, orbs, depth),
        ids_differ(orbs),
        orbs.contains(node.orb@),
    ensures
        flat(node).contains(o) <==> orbs.contains(o) && reaches(
            child_graph(orbs),
            node.orb@.id,
            o.id,
        ),
{
    if flat(node).contains(o) {
        lemma_flat_reached(node, orbs, depth, o);
    }
    if orbs.contains(o) && reaches(child_graph(orbs), node.orb@.id, o.id) {
        let w = choose|w: Seq<Seq<char>>|
            walk_between(child_graph(orbs), w, node.orb@.id, o.id);
        lemma_reached_flat(node, orbs, depth, w, o);
    }
}

/// Where an active edge that blocks or tells of a dependency joins an orb and its child, whichever
/// of them it starts at, the critical path of the orb is at least one longer than that of the
/// child.
pub proof fn law_critical_through_edge(store: DepStoreView, node: OrbNode, c: int, e: DepEdgeView)
    requires
        0 <= c < node.children@.len(),
        store.active().contains(e),
        e.edge_type == crate::dep::EdgeType::Blocks || e.edge_type
            == crate::dep::EdgeType::DependsOn,
        (e.from == node.orb@.id && e.to == node.children@[c].orb@.id) || (e.from
            == node.children@[c].orb@.id && e.to == node.orb@.id),
    ensures
        critical(store.graph(), node).len() >= critical(store.graph(), node.children@[c]).len() + 1,
{
    let g = store.graph();
    let a = node.orb@.id;
    let b = node.children@[c].orb@.id;
    crate::dep_store::law_graph_of_store(store, a, b);
    crate::dep_store::law_graph_of_store(store, b, a);
    lemma_critical_over(g, node, node.children@.len(), c);
}

/// The longest chain below a node starts at the first linked child that has a longest one.
proof fn lemma_critical_first(g: Set<(Seq<char>, Seq<char>)>, node: OrbNode, n: nat) -> (c: int)
    requires
        n <= node.children@.len(),
        critical_below(g, node, n).len() > 0,
    ensures
        0 <= c < n,
        linked(g, node.orb@.id, node.children@[c].orb@.id),
        critical_below(g, node, n) == critical(g, node.children@[c]),
        forall|d: int|
            0 <= d < c && linked(g, node.orb@.id, (#[trigger] node.children@[d]).orb@.id)
                ==> critical(g, node.children@[d]).len() < critical(g, node.children@[c]).len(),
    decreases n,
{
    let m = (n - 1) as nat;
    let before = critical_below(g, node, m);
    let child = node.children@[n - 1];
    if linked(g, node.orb@.id, child.orb@.id) && critical(g, child).len() > before.len() {
        assert forall|d: int|
            0 <= d < n - 1 && linked(g, node.orb@.id, (#[trigger] node.children@[d]).orb@.id) implies
            critical(g, node.children@[d]).len() < critical(g, child).len() by {
            lemma_critical_over(g, node, m, d);
        }
        n - 1
    } else {
        lemma_critical_first(g, node, m)
    }
}

/// A critical path starts at the root. Where it goes on, it goes on as the critical path of a child
/// that an active edge joins with the root, one that blocks or tells of a dependency and starts
/// at either; and every child before that one that is joined so has a shorter one.
pub proof fn law_critical_step(store: DepStoreView, node: OrbNode)
    ensures
        critical(store.graph(), node).len() >= 1,
        critical(store.graph(), node)[0] == node.orb@,
        critical(store.graph(), node).len() > 1 ==> exists|c: int, e: DepEdgeView|
            0 <= c < node.children@.len() && #[trigger] store.active().contains(e) && (e.edge_type
                == crate::dep::EdgeType::Blocks || e.edge_type == crate::dep::EdgeType::DependsOn)
                && ((e.from == node.orb@.id && e.to == (
            #[trigger] node.children@[c]).orb@.id) || (e.from == node.children@[c].orb@.id && e.to
                == node.orb@.id)) && critical(store.graph(), node) == seq![node.orb@] + critical(
                store.graph(),
                node.children@[c],
            ) && (forall|d: int, f: DepEdgeView|
                #![trigger node.children@[d], store.active().contains(f)]
                0 <= d < c && store.active().contains(f) && (f.edge_type
                    == crate::dep::EdgeType::Blocks || f.edge_type
                    == crate::dep::EdgeType::DependsOn) && ((f.from == node.orb@.id && f.to
                    == node.children@[d].orb@.id) || (f.from == node.children@[d].orb@.id && f.to
                    == node.orb@.id)) ==> critical(store.graph(), node.children@[d]).len()
                    < critical(store.graph(), node.children@[c]).len()),
{
    let g = store.graph();
    let a = node.orb@.id;
    let n = node.children@.len();
    if critical(g, node).len() > 1 {
        let c = lemma_critical_first(g, node, n);
        let b = node.children@[c].orb@.id;
        crate::dep_store::law_graph_of_store(store, a, b);
        crate::dep_store::law_graph_of_store(store, b, a);
        let e = choose|e: DepEdgeView| #[trigger]
            store.active().contains(e) && (e.edge_type == crate::dep::EdgeType::Blocks
                || e.edge_type == crate::dep::EdgeType::DependsOn) && ((e.from == a && e.to == b)
                || (e.from == b && e.to == a));
        assert(store.active().contains(e));
        assert forall|d: int, f: DepEdgeView|
            #![trigger node.children@[d], store.active().contains(f)]
            0 <= d < c && store.active().contains(f) && (f.edge_type == crate::dep::EdgeType::Blocks
                || f.edge_type == crate::dep::EdgeType::DependsOn) && ((f.from == a && f.to
                == node.children@[d].orb@.id) || (f.from == node.children@[d].orb@.id && f.to == a))
            implies critical(g, node.children@[d]).len() < critical(g, node.children@[c]).len() by {
            crate::dep_store::law_graph_of_store(store, a, node.children@[d].orb@.id);
            crate::dep_store::law_graph_of_store(store, node.children@[d].orb@.id, a);
        }
        assert(critical(g, node) == seq![node.orb@] + critical(g, node.children@[c]));
    }
}

/// The number of orbs in the trees of the first `n` children.
pub open spec fn orbs_before(node: OrbNode, n: nat) -> int
    decreases n,
{
    if n == 0 {
        0
    } else {
        orbs_before(node, (n - 1) as nat) + flat(node.children@[n - 1]).len()
    }
}

/// The number of leaves in the trees of the first `n` children.
pub open spec fn leaves_before(node: OrbNode, n: nat) -> int
    decreases n,
{
    if n == 0 {
        0
    } else {
        leaves_before(node, (n - 1) as nat) + leaf_orbs(node.children@[n - 1]).len()
    }
}

/// How much the trees of the first children hold.
proof fn lemma_part_lens(node: OrbNode, n: nat)
    requires
        n <= node.children@.len(),
    ensures
        flat_children(node, n).len() == orbs_before(node, n),
        leaves_of_children(node, n).len() == leaves_before(node, n),
    decreases n,
{
    if n > 0 {
        lemma_part_lens(node, (n - 1) as nat);
    }
}

/// The orbs of the tree of a child are a part of those of the trees of the children.
proof fn lemma_flat_part(node: OrbNode, n: nat, c: int)
    requires
        0 <= c < n <= node.children@.len(),
    ensures
        0 <= orbs_before(node, c as nat),
        orbs_before(node, c as nat) + flat(node.children@[c]).len() <= flat_children(node, n).len(),
        flat_children(node, n).subrange(
            orbs_before(node, c as nat),
            orbs_before(node, c as nat) + flat(node.children@[c]).len(),
        ) == flat(node.children@[c]),
    decreases n,
{
    let m = (n - 1) as nat;
    let from = orbs_before(node, c as nat);
    let to = from + flat(node.children@[c]).len();
    lemma_part_lens(node, m);
    lemma_part_lens(node, c as nat);
    if c < m {
        lemma_flat_part(node, m, c);
        assert(flat_children(node, n).subrange(from, to) =~= flat_children(node, m).subrange(
            from,
            to,
        ));
    } else {
        assert(flat_children(node, n).subrange(from, to) =~= flat(node.children@[c]));
    }
}

/// The leaves of the tree of a child are a part of those of the trees of the children.
proof fn lemma_leaf_part(node: OrbNode, n: nat, c: int)
    requires
        0 <= c < n <= node.children@.len(),
    ensures
        0 <= leaves_before(node, c as nat),
        leaves_before(node, c as nat) + leaf_orbs(node.children@[c]).len() <= leaves_of_children(
            node,
            n,
        ).len(),
        leaves_of_children(node, n).subrange(
            leaves_before(node, c as nat),
            leaves_before(node, c as nat) + leaf_orbs(node.children@[c]).len(),
        ) == leaf_orbs(node.children@[c]),
    decreases n,
{
    let m = (n - 1) as nat;
    let from = leaves_before(node, c as nat);
    let to = from + leaf_orbs(node.children@[c]).len();
    lemma_part_lens(node, m);
    lemma_part_lens(node, c as nat);
    if c < m {
        lemma_leaf_part(node, m, c);
        assert(leaves_of_children(node, n).subrange(from, to) =~= leaves_of_children(
            node,
            m,
        ).subrange(from, to));
    } else {
        assert(leaves_of_children(node, n).subrange(from, to) =~= leaf_orbs(node.children@[c]));
    }
}

/// The orbs of a tree are its root and then those of the trees of its children, one after the
/// other from the first to the last, and nothing else.
pub proof fn law_flat_is_preorder(node: OrbNode, c: int)
    ensures
        flat(node).len() == 1 + orbs_before(node, node.children@.len()),
        flat(node)[0] == node.orb@,
        0 <= c < node.children@.len() ==> 0 <= orbs_before(node, c as nat) && flat(node).subrange(
            1 + orbs_before(node, c as nat),
            1 + orbs_before(node, c as nat) + flat(node.children@[c]).len(),
        ) == flat(node.children@[c]),
{
    let n = node.children@.len();
    lemma_part_lens(node, n);
    if 0 <= c < n {
        let child = node.children@[c];
        lemma_flat_part(node, n, c);
        assert(flat(node).subrange(
            1 + orbs_before(node, c as nat),
            1 + orbs_before(node, c as nat) + flat(child).len(),
        ) =~= flat_children(node, n).subrange(
            orbs_before(node, c as nat),
            orbs_before(node, c as nat) + flat(child).len(),
        ));
    }
}

/// The leaf of a tree without children is its root. The leaves of every other tree are those of
/// the trees of its children, one after the other from the first to the last, and nothing else.
pub proof fn law_leaves_by_child(node: OrbNode, c: int)
    ensures
        node.children@.len() == 0 ==> leaf_orbs(node) == seq![node.orb@],
        node.children@.len() > 0 ==> leaf_orbs(node).len() == leaves_before(
            node,
            node.children@.len(),
        ),
        0 <= c < node.children@.len() ==> 0 <= leaves_before(node, c as nat) && leaf_orbs(
            node,
        ).subrange(
            leaves_before(node, c as nat),
            leaves_before(node, c as nat) + leaf_orbs(node.children@[c]).len(),
        ) == leaf_orbs(node.children@[c]),
{
    lemma_part_lens(node, node.children@.len());
    if 0 <= c < node.children@.len() {
        lemma_leaf_part(node, node.children@.len(), c);
    }
}

/// The depth of a tree is 0 without children, and otherwise one more than that of its deepest
/// child.
pub proof fn law_height(node: OrbNode)
    ensures
        node.children@.len() == 0 ==> height(node) == 0,
        forall|c: int|
            0 <= c < node.children@.len() ==> height(#[trigger] node.children@[c]) + 1 <= height(
                node,
            ),
        node.children@.len() > 0 ==> exists|c: int|
            0 <= c < node.children@.len() && height(#[trigger] node.children@[c]) + 1 == height(
                node,
            ),
{
    assert forall|c: int| 0 <= c < node.children@.len() implies height(
        #[trigger] node.children@[c],
    ) + 1 <= height(node) by {
        lemma_height_over(node, (c + 1) as nat);
    }
    if node.children@.len() > 0 {
        let c = lemma_height_reached(node, node.children@.len());
    }
}

/// The height over some children is reached by one of them.
proof fn lemma_height_reached(node: OrbNode, n: nat) -> (c: int)
    requires
        0 < n <= node.children@.len(),
    ensures
        0 <= c < n,
        height(node.children@[c]) + 1 == height_over(node, n),
    decreases n,
{
    if n == 1 || height(node.children@[n - 1]) + 1 > height_over(node, (n - 1) as nat) {
        assert(height_over(node, 0) == 0);
        n - 1
    } else {
        lemma_height_reached(node, (n - 1) as nat)
    }
}

/// The children of a node in the tree of an orb are exactly the orbs whose parent it is, in the
/// order of the list, and each is one level deeper.
pub proof fn law_tree_children(node: OrbNode, orbs: Seq<OrbView>, depth: int, o: OrbView)
    requires
        is_tree_of(node, orbs, depth),
    ensures
        node.depth == depth,
        forall|c: int|
            0 <= c < node.children@.len() ==> (#[trigger] node.children@[c]).orb@.parent_id == Some(
                node.orb@.id,
            ) && orbs.contains(node.children@[c].orb@) && node.children@[c].depth == depth + 1
                && is_tree_of(node.children@[c], orbs, depth + 1),
        orbs.contains(o) && o.parent_id == Some(node.orb@.id) ==> exists|c: int|
            0 <= c < node.children@.len() && (#[trigger] node.children@[c]).orb@ == o,
        forall|c: int, d: int|
            0 <= c < d < node.children@.len() ==> crate::lists::in_order(
                orbs,
                (#[trigger] node.children@[c]).orb@,
                (#[trigger] node.children@[d]).orb@,
            ),
{
    reveal_with_fuel(is_tree_of, 2);
    let pred = |x: OrbView| x.parent_id == Some(node.orb@.id);
    let kids = children_of(orbs, node.orb@.id);
    lemma_filter(orbs, pred);
    assert forall|c: int| 0 <= c < node.children@.len() implies (
    #[trigger] node.children@[c]).orb@.parent_id == Some(node.orb@.id) && orbs.contains(
        node.children@[c].orb@,
    ) && node.children@[c].depth == depth + 1 && is_tree_of(node.children@[c], orbs, depth + 1) by {
        assert(node.children@[c].orb@ == kids[c]);
        assert(kids.contains(kids[c]));
        assert(pred(kids[c]));
    }
    if orbs.contains(o) && o.parent_id == Some(node.orb@.id) {
        assert(kids.contains(o));
        let c = choose|c: int| 0 <= c < kids.len() && kids[c] == o;
        assert(node.children@[c].orb@ == o);
    }
    assert forall|c: int, d: int| 0 <= c < d < node.children@.len() implies crate::lists::in_order(
        orbs,
        (#[trigger] node.children@[c]).orb@,
        (#[trigger] node.children@[d]).orb@,
    ) by {
        assert(node.children@[c].orb@ == kids[c] && node.children@[d].orb@ == kids[d]);
    }
}

/// One orb is a child of another exactly if it has it as its parent.
pub proof fn law_child_graph(orbs: Seq<OrbView>, p: Seq<char>, c: Seq<char>)
    ensures
        child_graph(orbs).contains((p, c)) <==> exists|o: OrbView| #[trigger]
            orbs.contains(o) && o.id == c && o.parent_id == Some(p),
{
    if child_graph(orbs).contains((p, c)) {
        let i = choose|i: int|
            0 <= i < orbs.len() && (#[trigger] orbs[i]).parent_id == Some(p) && orbs[i].id == c;
        assert(orbs.contains(orbs[i]));
    }
    if exists|o: OrbView| #[trigger] orbs.contains(o) && o.id == c && o.parent_id == Some(p) {
        let o = choose|o: OrbView| #[trigger]
            orbs.contains(o) && o.id == c && o.parent_id == Some(p);
        let i = choose|i: int| 0 <= i < orbs.len() && orbs[i] == o;
        assert(orbs[i].parent_id == Some(p));
    }
}

/// A timeline holds exactly those active edges that start or end at an orb of its tree, and its
/// numbers are the number of orbs in the tree and how deep it is.
pub proof fn law_timeline(
    t: FullTimeline,
    store: OrbStoreView,
    deps: DepStoreView,
    root_id: Seq<char>,
    e: DepEdgeView,
)
    requires
        is_timeline(t, store, deps, root_id),
    ensures
        views(t.dep_edges@).contains(e) <==> deps.active().contains(e) && exists|o: OrbView|
            #[trigger]
            flat(t.root).contains(o) && (o.id == e.from || o.id == e.to),
        t.total_orbs == flat(t.root).len(),
        t.max_depth == height(t.root),
        store.find(root_id) == Some(t.root.orb@),
        is_tree_of(t.root, store.live(), 0),
{
    let pred = |x: DepEdgeView| touches(flat(t.root), x);
    let all = flat(t.root);
    lemma_filter(deps.active(), pred);
    if touches(all, e) {
        let i = choose|i: int|
            0 <= i < all.len() && ((#[trigger] all[i]).id == e.from || all[i].id == e.to);
        assert(all.contains(all[i]));
    }
    if exists|o: OrbView| #[trigger] all.contains(o) && (o.id == e.from || o.id == e.to) {
        let o = choose|o: OrbView| #[trigger] all.contains(o) && (o.id == e.from || o.id == e.to);
        let i = choose|i: int| 0 <= i < all.len() && all[i] == o;
        assert(all[i].id == e.from || all[i].id == e.to);
    }
    assert(views(t.dep_edges@).contains(e) <==> deps.active().contains(e) && pred(e));
}

} // verus!

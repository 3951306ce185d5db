//! Dependencies between orbs.

use vstd::prelude::*;

use crate::id::OrbId;
use crate::log::{Duplicate, Entry};
use crate::time::{utc_now, Timestamp};

verus! {

/// Type of dependency relationship between two orbs.
#[derive(Debug, Clone, Copy, PartialEq, Eq, Hash, Structural)]
pub enum EdgeType {
    /// `from` blocks `to`: `to` cannot start until `from` is done.
    Blocks,
    /// `from` depends on `to`: `from` cannot start until `to` is done.
    DependsOn,
    /// `from` is the parent of `to`.
    Parent,
    /// `from` is a child of `to`.
    Child,
    /// Informational link without a scheduling constraint.
    Related,
    /// `from` duplicates `to`.
    Duplicates,
    /// `from` should be done after `to` (soft ordering).
    Follows,
}

impl EdgeType {
    /// Whether edges of this type block.
    pub open spec fn blocks(self) -> bool {
        self is Blocks || self is DependsOn
    }

    /// Returns true if this edge type implies a hard scheduling dependency.
    pub fn is_blocking(&self) -> (r: bool)
        ensures
            r == self.blocks(),
    {
        matches!(self, EdgeType::Blocks | EdgeType::DependsOn)
    }
}

/// A directed dependency edge between two orbs.
#[derive(Debug)]
pub struct DepEdge {
    /// Source orb.
    pub from: OrbId,
    /// Target orb.
    pub to: OrbId,
    /// Type of relationship.
    pub edge_type: EdgeType,
    /// When this edge was created.
    pub created_at: Timestamp,
    /// Soft-delete timestamp. If set, this edge is considered removed.
    pub removed_at: Option<Timestamp>,
}

/// What a [`DepEdge`] holds.
pub struct DepEdgeView {
    pub from: Seq<char>,
    pub to: Seq<char>,
    pub edge_type: EdgeType,
    pub created_at: Timestamp,
    pub removed_at: Option<Timestamp>,
}

impl View for DepEdge {
    type V = DepEdgeView;

    open spec fn view(&self) -> DepEdgeView {
        DepEdgeView {
            from: self.from@,
            to: self.to@,
            edge_type: self.edge_type,
            created_at: self.created_at,
            removed_at: self.removed_at,
        }
    }
}

impl Clone for DepEdge {
    fn clone(&self) -> (r: DepEdge)
        ensures
            r@ == self@,
    {
        DepEdge {
            from: self.from.clone(),
            to: self.to.clone(),
            edge_type: self.edge_type,
            created_at: self.created_at,
            removed_at: self.removed_at,
        }
    }
}

/// An edge as it is when it is made.
pub open spec fn fresh_edge(
    from: Seq<char>,
    to: Seq<char>,
    edge_type: EdgeType,
    now: Timestamp,
) -> DepEdgeView {
    DepEdgeView { from, to, edge_type, created_at: now, removed_at: None }
}

impl DepEdge {
    /// Creates a new dependency edge.
    pub fn new(from: OrbId, to: OrbId, edge_type: EdgeType) -> (e: DepEdge)
        ensures
            e@ == fresh_edge(from@, to@, edge_type, e.created_at),
    {
        DepEdge::new_at(from, to, edge_type, utc_now())
    }

    /// Creates a dependency edge, as made at `now`.
    pub fn new_at(from: OrbId, to: OrbId, edge_type: EdgeType, now: Timestamp) -> (e: DepEdge)
        ensures
            e@ == fresh_edge(from@, to@, edge_type, now),
    {
        DepEdge { from, to, edge_type, created_at: now, removed_at: None }
    }

    /// Returns true if this edge has been soft-deleted.
    pub fn is_removed(&self) -> (r: bool)
        ensures
            r == (self@.removed_at is Some),
    {
        self.removed_at.is_some()
    }

    /// Marks this edge as removed.
    pub fn remove(&mut self)
        ensures
            final(self).removed_at is Some,
            final(self)@ == (DepEdgeView { removed_at: final(self).removed_at, ..old(self)@ }),
    {
        self.remove_at(utc_now());
    }

    /// Marks this edge as removed at `now`.
    pub fn remove_at(&mut self, now: Timestamp)
        ensures
            final(self)@ == (DepEdgeView { removed_at: Some(now), ..old(self)@ }),
    {
        self.removed_at = Some(now);
    }
}

impl Duplicate for DepEdge {
    fn duplicate(&self) -> (r: DepEdge) {
        self.clone()
    }
}

impl Entry for DepEdge {
    type Key = (Seq<char>, Seq<char>, EdgeType);

    open spec fn key(v: DepEdgeView) -> (Seq<char>, Seq<char>, EdgeType) {
        (v.from, v.to, v.edge_type)
    }

    open spec fn older(a: DepEdgeView, b: DepEdgeView) -> bool {
        false
    }

    proof fn older_is_order(a: DepEdgeView, b: DepEdgeView, c: DepEdgeView) {
    }

    fn same_key(&self, other: &DepEdge) -> (r: bool) {
        self.from == other.from && self.to == other.to && self.edge_type == other.edge_type
    }

    fn is_older(&self, other: &DepEdge) -> (r: bool) {
        false
    }
}

/// Edges of the types `Blocks` and `DependsOn` block, those of all other types do not.
pub proof fn law_blocking_types(t: EdgeType)
    ensures
        t == EdgeType::Blocks || t == EdgeType::DependsOn ==> t.blocks(),
        t == EdgeType::Parent || t == EdgeType::Child || t == EdgeType::Related || t
            == EdgeType::Duplicates || t == EdgeType::Follows ==> !t.blocks(),
{
}

/// A new edge joins the orbs it was given, in that direction, and is not removed.
pub proof fn law_fresh_edge(from: Seq<char>, to: Seq<char>, edge_type: EdgeType, now: Timestamp)
    ensures
        ({
            let e = fresh_edge(from, to, edge_type, now);
            &&& e.from == from && e.to == to && e.edge_type == edge_type
            &&& e.created_at == now && e.removed_at is None
        }),
{
}

/// Two records are of the same edge exactly if they agree in where it starts, where it ends and
/// in its type.
pub proof fn law_edge_identity(a: DepEdgeView, b: DepEdgeView)
    ensures
        <DepEdge as Entry>::key(a) == <DepEdge as Entry>::key(b) <==> a.from == b.from && a.to
            == b.to && a.edge_type == b.edge_type,
        !<DepEdge as Entry>::older(a, b),
{
}

} // verus!

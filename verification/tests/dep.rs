use orbs::dep::{DepEdge, EdgeType};
use orbs::id::OrbId;

#[test]
fn new_edge_is_not_removed() {
    let edge = DepEdge::new(
        OrbId::from_raw("orb-x"),
        OrbId::from_raw("orb-y"),
        EdgeType::Related,
    );
    assert!(!edge.is_removed());
}

#[test]
fn is_blocking_for_hard_deps() {
    assert!(EdgeType::Blocks.is_blocking());
    assert!(EdgeType::DependsOn.is_blocking());
    assert!(!EdgeType::Parent.is_blocking());
    assert!(!EdgeType::Child.is_blocking());
    assert!(!EdgeType::Related.is_blocking());
    assert!(!EdgeType::Duplicates.is_blocking());
    assert!(!EdgeType::Follows.is_blocking());
}

use std::collections::{HashMap, HashSet};

use orbs::dep::{DepEdge, EdgeType};
use orbs::dep_store::{DepError, DepStore};
use orbs::id::OrbId;
use orbs::orb::{Orb, OrbStatus};

fn make_orb(id: &str, priority: u8) -> Orb {
    let mut orb = Orb::new(&format!("Orb {id}"), &format!("Description for {id}"));
    orb.id = OrbId::from_raw(id);
    orb.priority = priority.clamp(1, 5);
    orb
}

fn make_done_orb(id: &str) -> Orb {
    let mut orb = make_orb(id, 3);
    orb.set_status(OrbStatus::Active).unwrap();
    orb.set_status(OrbStatus::Done).unwrap();
    orb
}

#[test]
fn add_and_load_edges() {
    let mut store = DepStore::new("deps.jsonl");

    let e1 = DepEdge::new(
        OrbId::from_raw("orb-a"),
        OrbId::from_raw("orb-b"),
        EdgeType::Blocks,
    );
    let e2 = DepEdge::new(
        OrbId::from_raw("orb-b"),
        OrbId::from_raw("orb-c"),
        EdgeType::DependsOn,
    );

    store.add_edge(e1).unwrap();
    store.add_edge(e2).unwrap();

    let all = store.all_edges();
    assert_eq!(all.len(), 2);
}

#[test]
fn edges_from_filters_correctly() {
    let mut store = DepStore::new("deps.jsonl");

    store
        .add_edge(DepEdge::new(
            OrbId::from_raw("orb-a"),
            OrbId::from_raw("orb-b"),
            EdgeType::Blocks,
        ))
        .unwrap();
    store
        .add_edge(DepEdge::new(
            OrbId::from_raw("orb-a"),
            OrbId::from_raw("orb-c"),
            EdgeType::Related,
        ))
        .unwrap();
    store
        .add_edge(DepEdge::new(
            OrbId::from_raw("orb-b"),
            OrbId::from_raw("orb-c"),
            EdgeType::Follows,
        ))
        .unwrap();

    let from_a = store.edges_from(&OrbId::from_raw("orb-a"));
    assert_eq!(from_a.len(), 2);

    let from_b = store.edges_from(&OrbId::from_raw("orb-b"));
    assert_eq!(from_b.len(), 1);
}

#[test]
fn edges_to_filters_correctly() {
    let mut store = DepStore::new("deps.jsonl");

    store
        .add_edge(DepEdge::new(
            OrbId::from_raw("orb-a"),
            OrbId::from_raw("orb-c"),
            EdgeType::Blocks,
        ))
        .unwrap();
    store
        .add_edge(DepEdge::new(
            OrbId::from_raw("orb-b"),
            OrbId::from_raw("orb-c"),
            EdgeType::DependsOn,
        ))
        .unwrap();

    let to_c = store.edges_to(&OrbId::from_raw("orb-c"));
    assert_eq!(to_c.len(), 2);

    let to_a = store.edges_to(&OrbId::from_raw("orb-a"));
    assert_eq!(to_a.len(), 0);
}

#[test]
fn remove_edge_soft_deletes() {
    let mut store = DepStore::new("deps.jsonl");

    store
        .add_edge(DepEdge::new(
            OrbId::from_raw("orb-a"),
            OrbId::from_raw("orb-b"),
            EdgeType::Blocks,
        ))
        .unwrap();
    store
        .add_edge(DepEdge::new(
            OrbId::from_raw("orb-a"),
            OrbId::from_raw("orb-c"),
            EdgeType::Related,
        ))
        .unwrap();

    let removed = store
        .remove_edge(
            &OrbId::from_raw("orb-a"),
            &OrbId::from_raw("orb-b"),
            EdgeType::Blocks,
        );
    assert!(removed);

    let all = store.all_edges();
    assert_eq!(all.len(), 1);
    assert_eq!(all[0].to, OrbId::from_raw("orb-c"));
}

#[test]
fn remove_nonexistent_edge_returns_false() {
    let mut store = DepStore::new("deps.jsonl");

    let removed = store
        .remove_edge(
            &OrbId::from_raw("orb-x"),
            &OrbId::from_raw("orb-y"),
            EdgeType::Blocks,
        );
    assert!(!removed);
}

#[test]
fn dep_store_empty_store_returns_empty() {
    let store = DepStore::new("nonexistent.jsonl");
    assert!(store.all_edges().is_empty());
}

#[test]
fn direct_cycle_rejected() {
    let mut store = DepStore::new("deps.jsonl");

    store
        .add_edge(DepEdge::new(
            OrbId::from_raw("orb-a"),
            OrbId::from_raw("orb-b"),
            EdgeType::Blocks,
        ))
        .unwrap();

    // orb-b blocks orb-a would create: a->b->a
    let result = store.add_edge(DepEdge::new(
        OrbId::from_raw("orb-b"),
        OrbId::from_raw("orb-a"),
        EdgeType::Blocks,
    ));
    assert!(result.is_err());
    if let Err(DepError::CycleDetected { cycle }) = result {
        assert!(cycle.len() >= 2);
    }
}

#[test]
fn transitive_cycle_rejected() {
    let mut store = DepStore::new("deps.jsonl");

    // a blocks b, b blocks c
    store
        .add_edge(DepEdge::new(
            OrbId::from_raw("orb-a"),
            OrbId::from_raw("orb-b"),
            EdgeType::Blocks,
        ))
        .unwrap();
    store
        .add_edge(DepEdge::new(
            OrbId::from_raw("orb-b"),
            OrbId::from_raw("orb-c"),
            EdgeType::Blocks,
        ))
        .unwrap();

    // c blocks a would create: a->b->c->a
    let result = store.add_edge(DepEdge::new(
        OrbId::from_raw("orb-c"),
        OrbId::from_raw("orb-a"),
        EdgeType::Blocks,
    ));
    assert!(result.is_err());
}

#[test]
fn cycle_detection_with_depends_on() {
    let mut store = DepStore::new("deps.jsonl");

    // a depends_on b (b must come before a)
    store
        .add_edge(DepEdge::new(
            OrbId::from_raw("orb-a"),
            OrbId::from_raw("orb-b"),
            EdgeType::DependsOn,
        ))
        .unwrap();

    // b depends_on a would create cycle
    let result = store.add_edge(DepEdge::new(
        OrbId::from_raw("orb-b"),
        OrbId::from_raw("orb-a"),
        EdgeType::DependsOn,
    ));
    assert!(result.is_err());
}

#[test]
fn mixed_blocks_depends_on_cycle() {
    let mut store = DepStore::new("deps.jsonl");

    // a blocks b (a must come before b)
    store
        .add_edge(DepEdge::new(
            OrbId::from_raw("orb-a"),
            OrbId::from_raw("orb-b"),
            EdgeType::Blocks,
        ))
        .unwrap();

    // a depends_on b would mean b must come before a, creating cycle
    let result = store.add_edge(DepEdge::new(
        OrbId::from_raw("orb-a"),
        OrbId::from_raw("orb-b"),
        EdgeType::DependsOn,
    ));
    assert!(result.is_err());
}

#[test]
fn non_blocking_edges_skip_cycle_check() {
    let mut store = DepStore::new("deps.jsonl");

    store
        .add_edge(DepEdge::new(
            OrbId::from_raw("orb-a"),
            OrbId::from_raw("orb-b"),
            EdgeType::Related,
        ))
        .unwrap();

    // Related back is fine: no cycle check for non-blocking.
    let result = store.add_edge(DepEdge::new(
        OrbId::from_raw("orb-b"),
        OrbId::from_raw("orb-a"),
        EdgeType::Related,
    ));
    assert!(result.is_ok());
}

#[test]
fn self_loop_rejected() {
    let mut store = DepStore::new("deps.jsonl");

    let result = store.add_edge(DepEdge::new(
        OrbId::from_raw("orb-a"),
        OrbId::from_raw("orb-a"),
        EdgeType::Blocks,
    ));
    assert!(result.is_err());
}

#[test]
fn ready_with_no_deps() {
    let store = DepStore::new("deps.jsonl");

    let orbs = vec![make_orb("orb-a", 3), make_orb("orb-b", 2)];
    let ready = store.ready(&orbs);
    assert_eq!(ready.len(), 2);
}

#[test]
fn ready_excludes_blocked_orbs() {
    let mut store = DepStore::new("deps.jsonl");

    // a blocks b
    store
        .add_edge(DepEdge::new(
            OrbId::from_raw("orb-a"),
            OrbId::from_raw("orb-b"),
            EdgeType::Blocks,
        ))
        .unwrap();

    let orbs = vec![make_orb("orb-a", 3), make_orb("orb-b", 2)];
    let ready = store.ready(&orbs);
    assert_eq!(ready.len(), 1);
    assert_eq!(ready[0], OrbId::from_raw("orb-a"));
}

#[test]
fn ready_includes_orb_when_blocker_done() {
    let mut store = DepStore::new("deps.jsonl");

    // a blocks b
    store
        .add_edge(DepEdge::new(
            OrbId::from_raw("orb-a"),
            OrbId::from_raw("orb-b"),
            EdgeType::Blocks,
        ))
        .unwrap();

    let orbs = vec![make_done_orb("orb-a"), make_orb("orb-b", 2)];
    let ready = store.ready(&orbs);
    // a is done (excluded from ready), b is now unblocked
    assert_eq!(ready.len(), 1);
    assert_eq!(ready[0], OrbId::from_raw("orb-b"));
}

#[test]
fn ready_with_depends_on() {
    let mut store = DepStore::new("deps.jsonl");

    // b depends_on a
    store
        .add_edge(DepEdge::new(
            OrbId::from_raw("orb-b"),
            OrbId::from_raw("orb-a"),
            EdgeType::DependsOn,
        ))
        .unwrap();

    let orbs = vec![make_orb("orb-a", 3), make_orb("orb-b", 2)];
    let ready = store.ready(&orbs);
    assert_eq!(ready.len(), 1);
    assert_eq!(ready[0], OrbId::from_raw("orb-a"));
}

#[test]
fn waiting_returns_blocked_orbs() {
    let mut store = DepStore::new("deps.jsonl");

    // a blocks b, a blocks c
    store
        .add_edge(DepEdge::new(
            OrbId::from_raw("orb-a"),
            OrbId::from_raw("orb-b"),
            EdgeType::Blocks,
        ))
        .unwrap();
    store
        .add_edge(DepEdge::new(
            OrbId::from_raw("orb-a"),
            OrbId::from_raw("orb-c"),
            EdgeType::Blocks,
        ))
        .unwrap();

    let orbs = vec![
        make_orb("orb-a", 3),
        make_orb("orb-b", 2),
        make_orb("orb-c", 1),
    ];
    let waiting = store.waiting(&orbs);
    assert_eq!(waiting.len(), 2);
    let waiting_ids: HashSet<_> = waiting.iter().map(|id| id.as_str().to_string()).collect();
    assert!(waiting_ids.contains("orb-b"));
    assert!(waiting_ids.contains("orb-c"));
}

#[test]
fn waiting_empty_when_all_blockers_done() {
    let mut store = DepStore::new("deps.jsonl");

    store
        .add_edge(DepEdge::new(
            OrbId::from_raw("orb-a"),
            OrbId::from_raw("orb-b"),
            EdgeType::Blocks,
        ))
        .unwrap();

    let orbs = vec![make_done_orb("orb-a"), make_orb("orb-b", 2)];
    let waiting = store.waiting(&orbs);
    assert!(waiting.is_empty());
}

#[test]
fn pipeline_respects_blocking_order() {
    let mut store = DepStore::new("deps.jsonl");

    // a blocks b, b blocks c
    store
        .add_edge(DepEdge::new(
            OrbId::from_raw("orb-a"),
            OrbId::from_raw("orb-b"),
            EdgeType::Blocks,
        ))
        .unwrap();
    store
        .add_edge(DepEdge::new(
            OrbId::from_raw("orb-b"),
            OrbId::from_raw("orb-c"),
            EdgeType::Blocks,
        ))
        .unwrap();

    let orbs = vec![
        make_orb("orb-c", 3),
        make_orb("orb-a", 3),
        make_orb("orb-b", 3),
    ];
    let pipeline = store.pipeline(&orbs);
    let positions: HashMap<String, usize> = pipeline
        .iter()
        .enumerate()
        .map(|(i, id)| (id.as_str().to_string(), i))
        .collect();

    assert!(positions["orb-a"] < positions["orb-b"]);
    assert!(positions["orb-b"] < positions["orb-c"]);
}

#[test]
fn pipeline_with_depends_on() {
    let mut store = DepStore::new("deps.jsonl");

    // c depends_on b, b depends_on a
    store
        .add_edge(DepEdge::new(
            OrbId::from_raw("orb-c"),
            OrbId::from_raw("orb-b"),
            EdgeType::DependsOn,
        ))
        .unwrap();
    store
        .add_edge(DepEdge::new(
            OrbId::from_raw("orb-b"),
            OrbId::from_raw("orb-a"),
            EdgeType::DependsOn,
        ))
        .unwrap();

    let orbs = vec![
        make_orb("orb-c", 3),
        make_orb("orb-a", 3),
        make_orb("orb-b", 3),
    ];
    let pipeline = store.pipeline(&orbs);
    let positions: HashMap<String, usize> = pipeline
        .iter()
        .enumerate()
        .map(|(i, id)| (id.as_str().to_string(), i))
        .collect();

    assert!(positions["orb-a"] < positions["orb-b"]);
    assert!(positions["orb-b"] < positions["orb-c"]);
}

#[test]
fn pipeline_sorts_by_priority_at_same_level() {
    let store = DepStore::new("deps.jsonl");

    // No deps — all at same level, sorted by priority.
    let orbs = vec![
        make_orb("orb-low", 4),
        make_orb("orb-high", 1),
        make_orb("orb-med", 3),
    ];
    let pipeline = store.pipeline(&orbs);
    // High priority (1) should come first.
    assert_eq!(pipeline[0], OrbId::from_raw("orb-high"));
}

#[test]
fn priority_propagation_through_blocks() {
    let mut store = DepStore::new("deps.jsonl");

    // a blocks b. b has priority 1 (critical), a has priority 4 (low).
    store
        .add_edge(DepEdge::new(
            OrbId::from_raw("orb-a"),
            OrbId::from_raw("orb-b"),
            EdgeType::Blocks,
        ))
        .unwrap();

    let orbs = vec![make_orb("orb-a", 4), make_orb("orb-b", 1)];
    let priorities = store.effective_priorities(&orbs);

    // a's effective priority should be elevated to 1 because b (priority 1) depends on it.
    assert_eq!(priorities.get("orb-a"), Some(&1));
    assert_eq!(priorities.get("orb-b"), Some(&1));
}

#[test]
fn priority_propagation_through_depends_on() {
    let mut store = DepStore::new("deps.jsonl");

    // b depends_on a. b has priority 1, a has priority 4.
    store
        .add_edge(DepEdge::new(
            OrbId::from_raw("orb-b"),
            OrbId::from_raw("orb-a"),
            EdgeType::DependsOn,
        ))
        .unwrap();

    let orbs = vec![make_orb("orb-a", 4), make_orb("orb-b", 1)];
    let priorities = store.effective_priorities(&orbs);

    assert_eq!(priorities.get("orb-a"), Some(&1));
    assert_eq!(priorities.get("orb-b"), Some(&1));
}

#[test]
fn priority_propagation_transitive() {
    let mut store = DepStore::new("deps.jsonl");

    // a blocks b, b blocks c. c has priority 1.
    store
        .add_edge(DepEdge::new(
            OrbId::from_raw("orb-a"),
            OrbId::from_raw("orb-b"),
            EdgeType::Blocks,
        ))
        .unwrap();
    store
        .add_edge(DepEdge::new(
            OrbId::from_raw("orb-b"),
            OrbId::from_raw("orb-c"),
            EdgeType::Blocks,
        ))
        .unwrap();

    let orbs = vec![
        make_orb("orb-a", 5),
        make_orb("orb-b", 4),
        make_orb("orb-c", 1),
    ];
    let priorities = store.effective_priorities(&orbs);

    assert_eq!(priorities.get("orb-a"), Some(&1));
    assert_eq!(priorities.get("orb-b"), Some(&1));
    assert_eq!(priorities.get("orb-c"), Some(&1));
}

#[test]
fn priority_no_propagation_for_non_blocking() {
    let mut store = DepStore::new("deps.jsonl");

    // a related to b — should not propagate priority.
    store
        .add_edge(DepEdge::new(
            OrbId::from_raw("orb-a"),
            OrbId::from_raw("orb-b"),
            EdgeType::Related,
        ))
        .unwrap();

    let orbs = vec![make_orb("orb-a", 4), make_orb("orb-b", 1)];
    let priorities = store.effective_priorities(&orbs);

    assert_eq!(priorities.get("orb-a"), Some(&4));
    assert_eq!(priorities.get("orb-b"), Some(&1));
}

#[test]
fn dep_error_display() {
    let err = DepError::CycleDetected {
        cycle: vec![
            OrbId::from_raw("orb-a"),
            OrbId::from_raw("orb-b"),
            OrbId::from_raw("orb-a"),
        ],
    };
    let msg = err.message();
    assert!(msg.contains("cycle detected"));
    assert!(msg.contains("orb-a"));
    assert!(msg.contains("orb-b"));
}

#[test]
fn deduplication_on_re_add_after_remove() {
    let mut store = DepStore::new("deps.jsonl");

    store
        .add_edge(DepEdge::new(
            OrbId::from_raw("orb-a"),
            OrbId::from_raw("orb-b"),
            EdgeType::Blocks,
        ))
        .unwrap();

    store
        .remove_edge(
            &OrbId::from_raw("orb-a"),
            &OrbId::from_raw("orb-b"),
            EdgeType::Blocks,
        );

    assert!(store.all_edges().is_empty());

    // Re-add the same edge.
    store
        .add_edge(DepEdge::new(
            OrbId::from_raw("orb-a"),
            OrbId::from_raw("orb-b"),
            EdgeType::Blocks,
        ))
        .unwrap();

    assert_eq!(store.all_edges().len(), 1);
}

use orbs::dep::{DepEdge, EdgeType};
use orbs::dep_store::DepStore;
use orbs::id::OrbId;
use orbs::orb::Orb;
use orbs::orb_store::OrbStore;
use orbs::tree::{build_full_timeline, build_orb_tree, critical_path, depth, flatten, leaves};

fn make_orb(id: &str, title: &str) -> Orb {
    let mut orb = Orb::new(title, "test description");
    orb.id = OrbId::from_raw(id);
    orb
}

fn make_child_orb(id: &str, title: &str, parent_id: &str) -> Orb {
    let mut orb = make_orb(id, title);
    orb.parent_id = Some(OrbId::from_raw(parent_id));
    orb.root_id = Some(OrbId::from_raw(parent_id));
    orb
}

#[test]
fn build_tree_single_root() {
    let mut store = OrbStore::new("orbs.jsonl");

    let root = make_orb("orb-root", "Root");
    store.append(&root);

    let tree = build_orb_tree(&store, &OrbId::from_raw("orb-root")).unwrap();
    assert_eq!(tree.orb.id, OrbId::from_raw("orb-root"));
    assert!(tree.children.is_empty());
    assert_eq!(tree.depth, 0);
}

#[test]
fn build_tree_nested_children() {
    let mut store = OrbStore::new("orbs.jsonl");

    let root = make_orb("orb-root", "Root");
    let child1 = make_child_orb("orb-c1", "Child 1", "orb-root");
    let child2 = make_child_orb("orb-c2", "Child 2", "orb-root");
    let grandchild = make_child_orb("orb-gc1", "Grandchild", "orb-c1");

    store.append(&root);
    store.append(&child1);
    store.append(&child2);
    store.append(&grandchild);

    let tree = build_orb_tree(&store, &OrbId::from_raw("orb-root")).unwrap();
    assert_eq!(tree.children.len(), 2);
    assert_eq!(tree.depth, 0);

    // Find child1 and verify it has a grandchild
    let c1 = tree
        .children
        .iter()
        .find(|c| c.orb.id == OrbId::from_raw("orb-c1"))
        .unwrap();
    assert_eq!(c1.children.len(), 1);
    assert_eq!(c1.depth, 1);
    assert_eq!(c1.children[0].depth, 2);
    assert_eq!(c1.children[0].orb.title, "Grandchild");

    // Child2 has no children
    let c2 = tree
        .children
        .iter()
        .find(|c| c.orb.id == OrbId::from_raw("orb-c2"))
        .unwrap();
    assert!(c2.children.is_empty());
}

#[test]
fn build_tree_missing_root_returns_none() {
    let mut store = OrbStore::new("orbs.jsonl");

    let orb = make_orb("orb-other", "Other");
    store.append(&orb);

    let result = build_orb_tree(&store, &OrbId::from_raw("orb-missing"));
    assert!(result.is_none());
}

#[test]
fn build_tree_empty_store_returns_none() {
    let store = OrbStore::new("nonexistent.jsonl");

    let result = build_orb_tree(&store, &OrbId::from_raw("orb-any"));
    assert!(result.is_none());
}

#[test]
fn leaves_single_node() {
    let mut store = OrbStore::new("orbs.jsonl");

    let root = make_orb("orb-root", "Root");
    store.append(&root);

    let tree = build_orb_tree(&store, &OrbId::from_raw("orb-root")).unwrap();
    let leaf_orbs = leaves(&tree);
    assert_eq!(leaf_orbs.len(), 1);
    assert_eq!(leaf_orbs[0].id, OrbId::from_raw("orb-root"));
}

#[test]
fn leaves_returns_only_leaf_nodes() {
    let mut store = OrbStore::new("orbs.jsonl");

    let root = make_orb("orb-root", "Root");
    let child1 = make_child_orb("orb-c1", "Child 1", "orb-root");
    let child2 = make_child_orb("orb-c2", "Child 2", "orb-root");
    let grandchild = make_child_orb("orb-gc1", "Grandchild", "orb-c1");

    store.append(&root);
    store.append(&child1);
    store.append(&child2);
    store.append(&grandchild);

    let tree = build_orb_tree(&store, &OrbId::from_raw("orb-root")).unwrap();
    let leaf_orbs = leaves(&tree);

    // Leaves should be child2 and grandchild (not root or child1)
    assert_eq!(leaf_orbs.len(), 2);
    let leaf_ids: Vec<&str> = leaf_orbs.iter().map(|o| o.id.as_str()).collect();
    assert!(leaf_ids.contains(&"orb-c2"));
    assert!(leaf_ids.contains(&"orb-gc1"));
}

#[test]
fn depth_single_node_is_zero() {
    let mut store = OrbStore::new("orbs.jsonl");

    let root = make_orb("orb-root", "Root");
    store.append(&root);

    let tree = build_orb_tree(&store, &OrbId::from_raw("orb-root")).unwrap();
    assert_eq!(depth(&tree), 0);
}

#[test]
fn depth_nested_tree() {
    let mut store = OrbStore::new("orbs.jsonl");

    let root = make_orb("orb-root", "Root");
    let child = make_child_orb("orb-c1", "Child", "orb-root");
    let grandchild = make_child_orb("orb-gc1", "Grandchild", "orb-c1");

    store.append(&root);
    store.append(&child);
    store.append(&grandchild);

    let tree = build_orb_tree(&store, &OrbId::from_raw("orb-root")).unwrap();
    assert_eq!(depth(&tree), 2);
}

#[test]
fn flatten_preorder() {
    let mut store = OrbStore::new("orbs.jsonl");

    let root = make_orb("orb-root", "Root");
    let child1 = make_child_orb("orb-c1", "Child 1", "orb-root");
    let child2 = make_child_orb("orb-c2", "Child 2", "orb-root");
    let grandchild = make_child_orb("orb-gc1", "Grandchild", "orb-c1");

    store.append(&root);
    store.append(&child1);
    store.append(&child2);
    store.append(&grandchild);

    let tree = build_orb_tree(&store, &OrbId::from_raw("orb-root")).unwrap();
    let all = flatten(&tree);

    assert_eq!(all.len(), 4);
    // Root is first in pre-order
    assert_eq!(all[0].id, OrbId::from_raw("orb-root"));
}

#[test]
fn flatten_single_node() {
    let mut store = OrbStore::new("orbs.jsonl");

    let root = make_orb("orb-root", "Root");
    store.append(&root);

    let tree = build_orb_tree(&store, &OrbId::from_raw("orb-root")).unwrap();
    let all = flatten(&tree);
    assert_eq!(all.len(), 1);
}

#[test]
fn critical_path_no_blocking_deps() {
    let mut orb_store = OrbStore::new("orbs.jsonl");
    let dep_store = DepStore::new("deps.jsonl");

    let root = make_orb("orb-root", "Root");
    let child = make_child_orb("orb-c1", "Child", "orb-root");

    orb_store.append(&root);
    orb_store.append(&child);

    let tree = build_orb_tree(&orb_store, &OrbId::from_raw("orb-root")).unwrap();
    let path = critical_path(&tree, &dep_store);

    // No blocking deps means just the root
    assert_eq!(path.len(), 1);
    assert_eq!(path[0].id, OrbId::from_raw("orb-root"));
}

#[test]
fn critical_path_with_blocking_deps() {
    let mut orb_store = OrbStore::new("orbs.jsonl");
    let mut dep_store = DepStore::new("deps.jsonl");

    let root = make_orb("orb-root", "Root");
    let child1 = make_child_orb("orb-c1", "Child 1", "orb-root");
    let child2 = make_child_orb("orb-c2", "Child 2", "orb-root");
    let grandchild = make_child_orb("orb-gc1", "Grandchild", "orb-c1");

    orb_store.append(&root);
    orb_store.append(&child1);
    orb_store.append(&child2);
    orb_store.append(&grandchild);

    // root blocks child1, child1 blocks grandchild (longest chain = 3)
    // root blocks child2 (shorter chain = 2)
    dep_store
        .add_edge(DepEdge::new(
            OrbId::from_raw("orb-root"),
            OrbId::from_raw("orb-c1"),
            EdgeType::Blocks,
        ))
        .unwrap();
    dep_store
        .add_edge(DepEdge::new(
            OrbId::from_raw("orb-c1"),
            OrbId::from_raw("orb-gc1"),
            EdgeType::Blocks,
        ))
        .unwrap();
    dep_store
        .add_edge(DepEdge::new(
            OrbId::from_raw("orb-root"),
            OrbId::from_raw("orb-c2"),
            EdgeType::Blocks,
        ))
        .unwrap();

    let tree = build_orb_tree(&orb_store, &OrbId::from_raw("orb-root")).unwrap();
    let path = critical_path(&tree, &dep_store);

    // Should be root -> child1 -> grandchild (length 3)
    assert_eq!(path.len(), 3);
    assert_eq!(path[0].id, OrbId::from_raw("orb-root"));
    assert_eq!(path[1].id, OrbId::from_raw("orb-c1"));
    assert_eq!(path[2].id, OrbId::from_raw("orb-gc1"));
}

#[test]
fn critical_path_depends_on_edge() {
    let mut orb_store = OrbStore::new("orbs.jsonl");
    let mut dep_store = DepStore::new("deps.jsonl");

    let root = make_orb("orb-root", "Root");
    let child = make_child_orb("orb-c1", "Child", "orb-root");

    orb_store.append(&root);
    orb_store.append(&child);

    // DependsOn is also blocking
    dep_store
        .add_edge(DepEdge::new(
            OrbId::from_raw("orb-c1"),
            OrbId::from_raw("orb-root"),
            EdgeType::DependsOn,
        ))
        .unwrap();

    let tree = build_orb_tree(&orb_store, &OrbId::from_raw("orb-root")).unwrap();
    let path = critical_path(&tree, &dep_store);

    assert_eq!(path.len(), 2);
    assert_eq!(path[0].id, OrbId::from_raw("orb-root"));
    assert_eq!(path[1].id, OrbId::from_raw("orb-c1"));
}

#[test]
fn full_timeline_basic() {
    let mut orb_store = OrbStore::new("orbs.jsonl");
    let mut dep_store = DepStore::new("deps.jsonl");

    let root = make_orb("orb-root", "Root");
    let child = make_child_orb("orb-c1", "Child", "orb-root");

    orb_store.append(&root);
    orb_store.append(&child);

    dep_store
        .add_edge(DepEdge::new(
            OrbId::from_raw("orb-root"),
            OrbId::from_raw("orb-c1"),
            EdgeType::Blocks,
        ))
        .unwrap();

    let timeline =
        build_full_timeline(&orb_store, &dep_store, &OrbId::from_raw("orb-root")).unwrap();

    assert_eq!(timeline.total_orbs, 2);
    assert_eq!(timeline.max_depth, 1);
    assert_eq!(timeline.dep_edges.len(), 1);
    assert_eq!(timeline.root.orb.id, OrbId::from_raw("orb-root"));
}

#[test]
fn full_timeline_missing_root_returns_none() {
    let orb_store = OrbStore::new("orbs.jsonl");
    let dep_store = DepStore::new("deps.jsonl");

    let result = build_full_timeline(&orb_store, &dep_store, &OrbId::from_raw("orb-missing"));
    assert!(result.is_none());
}

#[test]
fn full_timeline_excludes_unrelated_edges() {
    let mut orb_store = OrbStore::new("orbs.jsonl");
    let mut dep_store = DepStore::new("deps.jsonl");

    let root = make_orb("orb-root", "Root");
    let child = make_child_orb("orb-c1", "Child", "orb-root");
    let unrelated = make_orb("orb-other", "Other");

    orb_store.append(&root);
    orb_store.append(&child);
    orb_store.append(&unrelated);

    // Edge within the tree
    dep_store
        .add_edge(DepEdge::new(
            OrbId::from_raw("orb-root"),
            OrbId::from_raw("orb-c1"),
            EdgeType::Blocks,
        ))
        .unwrap();

    // Edge outside the tree (between unrelated orbs)
    dep_store
        .add_edge(DepEdge::new(
            OrbId::from_raw("orb-other"),
            OrbId::from_raw("orb-unrelated2"),
            EdgeType::Related,
        ))
        .unwrap();

    let timeline =
        build_full_timeline(&orb_store, &dep_store, &OrbId::from_raw("orb-root")).unwrap();

    // Should only include the edge within the tree
    assert_eq!(timeline.dep_edges.len(), 1);
    assert_eq!(timeline.dep_edges[0].from, OrbId::from_raw("orb-root"));
}

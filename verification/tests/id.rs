use orbs::digits::encode_base36;
use orbs::id::{compute_hash, content_hash, OrbId};

#[test]
fn id_generation_is_deterministic() {
    let existing = Vec::<String>::new();
    let id1 = OrbId::generate("title", "desc", "user", 1000, &existing);
    let id2 = OrbId::generate("title", "desc", "user", 1000, &existing);
    assert_eq!(id1, id2);
}

#[test]
fn id_starts_with_orb_prefix() {
    let existing = Vec::<String>::new();
    let id = OrbId::generate("title", "desc", "user", 1000, &existing);
    assert!(id.as_str().starts_with("orb-"));
}

#[test]
fn different_inputs_produce_different_ids() {
    let existing = Vec::<String>::new();
    let id1 = OrbId::generate("title1", "desc", "user", 1000, &existing);
    let id2 = OrbId::generate("title2", "desc", "user", 1000, &existing);
    assert_ne!(id1, id2);
}

#[test]
fn collision_handling_increments_nonce() {
    let existing = Vec::<String>::new();
    let id1 = OrbId::generate("title", "desc", "user", 1000, &existing);

    let mut existing_with_collision = Vec::<String>::new();
    existing_with_collision.push(id1.as_str().to_string());

    let id2 = OrbId::generate("title", "desc", "user", 1000, &existing_with_collision);
    assert_ne!(id1, id2);
    // Still starts with orb-
    assert!(id2.as_str().starts_with("orb-"));
}

#[test]
fn collision_handling_extends_length() {
    // Fill all 10 nonces at length 3
    let mut existing = Vec::<String>::new();
    for nonce in 0..10 {
        let hash = compute_hash("title", "desc", "user", 1000, nonce);
        let candidate = encode_base36(&hash, 3);
        existing.push(format!("orb-{candidate}"));
    }

    let id = OrbId::generate("title", "desc", "user", 1000, &existing);
    assert!(id.as_str().starts_with("orb-"));
    // Should be longer than 3 chars after prefix
    assert!(id.as_str().len() > "orb-".len() + 3);
}

#[test]
fn child_id_generation() {
    let parent = OrbId::from_raw("orb-abc");
    let child1 = parent.child(1);
    let child2 = parent.child(2);
    assert_eq!(child1.as_str(), "orb-abc.1");
    assert_eq!(child2.as_str(), "orb-abc.2");
}

#[test]
fn child_id_is_child() {
    let parent = OrbId::from_raw("orb-abc");
    assert!(!parent.is_child());
    let child = parent.child(1);
    assert!(child.is_child());
}

#[test]
fn parent_id_extraction() {
    let child = OrbId::from_raw("orb-abc.1");
    assert_eq!(child.parent_id(), Some(OrbId::from_raw("orb-abc")));

    let root = OrbId::from_raw("orb-abc");
    assert_eq!(root.parent_id(), None);

    // Nested child
    let nested = OrbId::from_raw("orb-abc.1.2");
    assert_eq!(nested.parent_id(), Some(OrbId::from_raw("orb-abc.1")));
}

#[test]
fn content_hash_changes_on_content_edit() {
    let h1 = content_hash("title", "desc", None, None, "task", &[], 3);
    let h2 = content_hash("title", "desc changed", None, None, "task", &[], 3);
    assert_ne!(h1, h2);
}

#[test]
fn content_hash_stable_on_same_input() {
    let h1 = content_hash("title", "desc", None, None, "task", &[], 3);
    let h2 = content_hash("title", "desc", None, None, "task", &[], 3);
    assert_eq!(h1, h2);
}

#[test]
fn content_hash_changes_on_priority() {
    let h1 = content_hash("title", "desc", None, None, "task", &[], 3);
    let h2 = content_hash("title", "desc", None, None, "task", &[], 1);
    assert_ne!(h1, h2);
}

#[test]
fn content_hash_changes_on_type() {
    let h1 = content_hash("title", "desc", None, None, "task", &[], 3);
    let h2 = content_hash("title", "desc", None, None, "bug", &[], 3);
    assert_ne!(h1, h2);
}

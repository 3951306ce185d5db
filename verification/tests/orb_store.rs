use orbs::orb::{Orb, OrbStatus, OrbType};
use orbs::orb_store::OrbStore;

#[test]
fn create_and_load_orbs() {
    let mut store = OrbStore::new("orbs.jsonl");

    let orb1 = Orb::new("Orb one", "First orb");
    let orb2 = Orb::new("Orb two", "Second orb");
    store.append(&orb1);
    store.append(&orb2);

    let loaded = store.load_all();
    assert_eq!(loaded.len(), 2);
}

#[test]
fn orb_store_update_deduplicates_by_id() {
    let mut store = OrbStore::new("orbs.jsonl");

    let mut orb = Orb::new("Test orb", "description");
    store.append(&orb);

    orb.set_status(OrbStatus::Active).unwrap();
    store.update(&orb);

    orb.set_status(OrbStatus::Done).unwrap();
    orb.result = Some("completed".into());
    store.update(&orb);

    let loaded = store.load_all();
    assert_eq!(loaded.len(), 1);
    assert_eq!(loaded[0].result.as_deref(), Some("completed"));
}

#[test]
fn tombstoned_excluded_from_queries() {
    let mut store = OrbStore::new("orbs.jsonl");

    let mut orb = Orb::new("Will be deleted", "test");
    store.append(&orb);

    let normal = Orb::new("Normal", "stays");
    store.append(&normal);

    orb.tombstone(Some("duplicate".into()));
    store.update(&orb);

    let loaded = store.load_all();
    assert_eq!(loaded.len(), 1);
    assert_eq!(loaded[0].title, "Normal");

    // But load_all_including_tombstoned returns both
    let all = store.load_all_including_tombstoned();
    assert_eq!(all.len(), 2);
}

#[test]
fn orb_store_load_by_id() {
    let mut store = OrbStore::new("orbs.jsonl");

    let orb = Orb::new("Find me", "test");
    let target_id = orb.id.clone();
    store.append(&orb);
    store.append(&Orb::new("Other", "orb"));

    let found = store.load_by_id(&target_id);
    assert!(found.is_some());
    assert_eq!(found.unwrap().title, "Find me");
}

#[test]
fn load_children() {
    let mut store = OrbStore::new("orbs.jsonl");

    let parent = Orb::new("Parent", "parent orb");
    let parent_id = parent.id.clone();
    store.append(&parent);

    let child1 = Orb::new("Child 1", "first child").with_parent(parent_id.clone(), None);
    let child2 = Orb::new("Child 2", "second child").with_parent(parent_id.clone(), None);
    store.append(&child1);
    store.append(&child2);

    let children = store.load_children(&parent_id);
    assert_eq!(children.len(), 2);
}

#[test]
fn load_by_type() {
    let mut store = OrbStore::new("orbs.jsonl");

    let task = Orb::new("Task", "a task");
    let epic = Orb::new("Epic", "an epic").with_type(OrbType::Epic);
    store.append(&task);
    store.append(&epic);

    let tasks = store.load_by_type(&OrbType::Task);
    assert_eq!(tasks.len(), 1);
    assert_eq!(tasks[0].title, "Task");

    let epics = store.load_by_type(&OrbType::Epic);
    assert_eq!(epics.len(), 1);
    assert_eq!(epics[0].title, "Epic");
}

#[test]
fn orb_store_empty_store_returns_empty() {
    let store = OrbStore::new("nonexistent.jsonl");
    let loaded = store.load_all();
    assert!(loaded.is_empty());
}

#[test]
fn existing_ids_for_collision_check() {
    let mut store = OrbStore::new("orbs.jsonl");

    let orb = Orb::new("Test", "test");
    let id = orb.id.as_str().to_string();
    store.append(&orb);

    let existing = store.existing_ids();
    assert!(existing.contains(&id));
}

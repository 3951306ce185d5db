use orbs::store::TaskStore;
use orbs::task::{Task, TaskStatus};
use orbs::uuid::Uuid;

#[test]
fn create_and_load_tasks() {
    let mut store = TaskStore::new("tasks.jsonl");

    let task1 = Task::new("Task one", "First task");
    let task2 = Task::new("Task two", "Second task");
    store.append(&task1);
    store.append(&task2);

    let loaded = store.load_all();
    assert_eq!(loaded.len(), 2);
    assert_eq!(loaded[0].title, "Task one");
    assert_eq!(loaded[1].title, "Task two");
}

#[test]
fn store_update_deduplicates_by_id() {
    let mut store = TaskStore::new("tasks.jsonl");

    let mut task = Task::new("Test task", "description");
    store.append(&task);

    task.transition(TaskStatus::Active);
    store.update(&task);

    task.transition(TaskStatus::Done);
    task.result = Some("completed successfully".into());
    store.update(&task);

    // File has 3 lines, but load_all deduplicates to 1 task
    let loaded = store.load_all();
    assert_eq!(loaded.len(), 1);
    assert_eq!(loaded[0].status, TaskStatus::Done);
    assert_eq!(loaded[0].result.as_deref(), Some("completed successfully"));
}

#[test]
fn filter_by_status() {
    let mut store = TaskStore::new("tasks.jsonl");

    let mut task1 = Task::new("Pending task", "waiting");
    store.append(&task1);

    let mut task2 = Task::new("Active task", "working");
    task2.transition(TaskStatus::Active);
    store.append(&task2);

    let mut task3 = Task::new("Done task", "finished");
    task3.transition(TaskStatus::Done);
    store.append(&task3);

    let pending = store.load_by_status(TaskStatus::Pending);
    assert_eq!(pending.len(), 1);
    assert_eq!(pending[0].title, "Pending task");

    let active = store.load_by_status(TaskStatus::Active);
    assert_eq!(active.len(), 1);
    assert_eq!(active[0].title, "Active task");

    // Transition task1 to active, update store
    task1.transition(TaskStatus::Active);
    store.update(&task1);

    let active = store.load_by_status(TaskStatus::Active);
    assert_eq!(active.len(), 2);
}

#[test]
fn store_load_by_id() {
    let mut store = TaskStore::new("tasks.jsonl");

    let task = Task::new("Find me", "test");
    let target_id = task.id;
    store.append(&task);
    store.append(&Task::new("Other", "task"));

    let found = store.load_by_id(target_id);
    assert!(found.is_some());
    assert_eq!(found.unwrap().title, "Find me");

    let missing = store.load_by_id(Uuid::new_v4());
    assert!(missing.is_none());
}

#[test]
fn store_empty_store_returns_empty() {
    let store = TaskStore::new("nonexistent.jsonl");
    let loaded = store.load_all();
    assert!(loaded.is_empty());
}

#[test]
fn priority_ordering_in_subtasks() {
    let mut store = TaskStore::new("tasks.jsonl");

    let parent = Task::new("Parent task", "orchestrate");
    let parent_id = parent.id;
    store.append(&parent);

    let child1 = Task::new("Child 1", "research")
        .with_parent(parent_id)
        .with_priority(1);
    let child2 = Task::new("Child 2", "implement")
        .with_parent(parent_id)
        .with_priority(2);
    store.append(&child1);
    store.append(&child2);

    let all = store.load_all();
    assert_eq!(all.len(), 3);

    let children: Vec<_> = all
        .iter()
        .filter(|t| t.parent_id == Some(parent_id))
        .collect();
    assert_eq!(children.len(), 2);
}

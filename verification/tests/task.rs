use orbs::task::{Task, TaskStatus};

#[test]
fn new_task_is_pending() {
    let task = Task::new("Test task", "Do something");
    assert_eq!(task.status, TaskStatus::Pending);
    assert_eq!(task.priority, 3);
    assert!(task.result.is_none());
    assert!(task.parent_id.is_none());
}

#[test]
fn task_priority_clamped() {
    let task = Task::new("Test", "test").with_priority(0);
    assert_eq!(task.priority, 1);
    let task = Task::new("Test", "test").with_priority(10);
    assert_eq!(task.priority, 5);
}

#[test]
fn transition_updates_status_and_timestamp() {
    let mut task = Task::new("Test", "test");
    let original_updated = task.updated_at;
    task.transition(TaskStatus::Active);
    assert_eq!(task.status, TaskStatus::Active);
    assert!(!task.updated_at.is_before(&original_updated));
}

#[test]
fn subtask_with_parent() {
    let parent = Task::new("Parent", "parent task");
    let child = Task::new("Child", "child task").with_parent(parent.id);
    assert_eq!(child.parent_id, Some(parent.id));
}

//! Tasks of the orchestrator.

use vstd::prelude::*;

use crate::text::{clone_opt_text, opt_text};
use crate::time::{utc_now, Timestamp};
use crate::uuid::{is_random, Uuid};

verus! {

/// Status of a task in the orchestrator pipeline.
#[derive(Debug, Clone, Copy, PartialEq, Eq, Structural)]
pub enum TaskStatus {
    /// Waiting to be picked up by a worker.
    Pending,
    /// Currently being executed by a worker.
    Active,
    /// Completed, awaiting human review.
    Review,
    /// Successfully completed.
    Done,
    /// Failed during execution.
    Failed,
    /// Cancelled before completion.
    Cancelled,
}

/// A task managed by the orchestrator.
#[derive(Debug)]
pub struct Task {
    pub id: Uuid,
    pub title: String,
    pub description: String,
    pub status: TaskStatus,
    /// Priority 1 (highest) to 5 (lowest).
    pub priority: u8,
    pub created_at: Timestamp,
    pub updated_at: Timestamp,
    /// Final response text from the worker.
    pub result: Option<String>,
    /// Parent task ID for subtask relationships.
    pub parent_id: Option<Uuid>,
    /// Name of the worker's model.
    pub worker_model: Option<String>,
}

/// What a [`Task`] holds.
pub struct TaskView {
    pub id: Uuid,
    pub title: Seq<char>,
    pub description: Seq<char>,
    pub status: TaskStatus,
    pub priority: u8,
    pub created_at: Timestamp,
    pub updated_at: Timestamp,
    pub result: Option<Seq<char>>,
    pub parent_id: Option<Uuid>,
    pub worker_model: Option<Seq<char>>,
}

impl View for Task {
    type V = TaskView;

    open spec fn view(&self) -> TaskView {
        TaskView {
            id: self.id,
            title: self.title@,
            description: self.description@,
            status: self.status,
            priority: self.priority,
            created_at: self.created_at,
            updated_at: self.updated_at,
            result: opt_text(self.result),
            parent_id: self.parent_id,
            worker_model: opt_text(self.worker_model),
        }
    }
}

impl Clone for Task {
    fn clone(&self) -> (r: Task)
        ensures
            r@ == self@,
    {
        Task {
            id: self.id,
            title: self.title.clone(),
            description: self.description.clone(),
            status: self.status,
            priority: self.priority,
            created_at: self.created_at,
            updated_at: self.updated_at,
            result: clone_opt_text(&self.result),
            parent_id: self.parent_id,
            worker_model: clone_opt_text(&self.worker_model),
        }
    }
}

/// The number in the range 1 to 5 that is closest to `priority`.
pub open spec fn clamped(priority: u8) -> u8 {
    if priority < 1 {
        1
    } else if priority > 5 {
        5
    } else {
        priority
    }
}

/// `clamped`, computed.
pub fn clamp_priority(priority: u8) -> (r: u8)
    ensures
        r == clamped(priority),
{
    if priority < 1 {
        1
    } else if priority > 5 {
        5
    } else {
        priority
    }
}

/// A task as it is when it is made.
pub open spec fn fresh_task(
    id: Uuid,
    title: Seq<char>,
    description: Seq<char>,
    now: Timestamp,
) -> TaskView {
    TaskView {
        id,
        title,
        description,
        status: TaskStatus::Pending,
        priority: 3,
        created_at: now,
        updated_at: now,
        result: None,
        parent_id: None,
        worker_model: None,
    }
}

impl Task {
    /// Creates a new pending task with the given title and description.
    pub fn new(title: &str, description: &str) -> (t: Task)
        ensures
            t@ == fresh_task(t.id, title@, description@, t.created_at),
            is_random(t.id.bits),
    {
        Task::new_at(Uuid::new_v4(), title, description, utc_now())
    }

    /// Creates a pending task with the given identifier, as made at `now`.
    pub fn new_at(id: Uuid, title: &str, description: &str, now: Timestamp) -> (t: Task)
        ensures
            t@ == fresh_task(id, title@, description@, now),
    {
        Task {
            id,
            title: title.to_owned(),
            description: description.to_owned(),
            status: TaskStatus::Pending,
            priority: 3,
            created_at: now,
            updated_at: now,
            result: None,
            parent_id: None,
            worker_model: None,
        }
    }

    /// Sets the priority (clamped to 1-5).
    #[must_use]
    pub fn with_priority(self, priority: u8) -> (t: Task)
        ensures
            t@ == (TaskView { priority: clamped(priority), ..self@ }),
    {
        let mut t = self;
        t.priority = clamp_priority(priority);
        t
    }

    /// Sets the parent task ID.
    #[must_use]
    pub fn with_parent(self, parent_id: Uuid) -> (t: Task)
        ensures
            t@ == (TaskView { parent_id: Some(parent_id), ..self@ }),
    {
        let mut t = self;
        t.parent_id = Some(parent_id);
        t
    }

    /// Transitions the task to a new status, updating the timestamp.
    pub fn transition(&mut self, new_status: TaskStatus)
        ensures
            final(self)@ == (TaskView {
                status: new_status,
                updated_at: final(self).updated_at,
                ..old(self)@
            }),
    {
        self.transition_at(new_status, utc_now());
    }

    /// Transitions the task to a new status at `now`.
    pub fn transition_at(&mut self, new_status: TaskStatus, now: Timestamp)
        ensures
            final(self)@ == (TaskView { status: new_status, updated_at: now, ..old(self)@ }),
    {
        self.status = new_status;
        self.updated_at = now;
    }
}

/// Priorities from 1 to 5 are kept, 0 becomes 1, and what is above 5 becomes 5.
pub proof fn law_clamped(priority: u8)
    ensures
        1 <= clamped(priority) <= 5,
        1 <= priority <= 5 ==> clamped(priority) == priority,
        priority == 0 ==> clamped(priority) == 1,
        priority > 5 ==> clamped(priority) == 5,
{
}

/// A new task is pending and of medium priority, holds what it was given, and nothing else yet.
pub proof fn law_fresh_task(id: Uuid, title: Seq<char>, description: Seq<char>, now: Timestamp)
    ensures
        ({
            let t = fresh_task(id, title, description, now);
            &&& t.id == id && t.title == title && t.description == description
            &&& t.status == TaskStatus::Pending && t.priority == 3
            &&& t.created_at == now && t.updated_at == now
            &&& t.result is None && t.parent_id is None && t.worker_model is None
        }),
{
}

} // verus!

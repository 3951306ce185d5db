//! The store of tasks.

use vstd::prelude::*;

use crate::log::{keep, latest, load, loaded, views, Duplicate, Entry};
use crate::task::{Task, TaskStatus, TaskView};
use crate::time::{earlier, law_earlier_is_total_order};
use crate::uuid::Uuid;

verus! {

impl Duplicate for Task {
    fn duplicate(&self) -> (r: Task) {
        self.clone()
    }
}

impl Entry for Task {
    type Key = Uuid;

    open spec fn key(v: TaskView) -> Uuid {
        v.id
    }

    open spec fn older(a: TaskView, b: TaskView) -> bool {
        earlier(a.created_at, b.created_at)
    }

    proof fn older_is_order(a: TaskView, b: TaskView, c: TaskView) {
        law_earlier_is_total_order(a.created_at, b.created_at, c.created_at);
        law_earlier_is_total_order(b.created_at, a.created_at, c.created_at);
        law_earlier_is_total_order(c.created_at, b.created_at, a.created_at);
    }

    fn same_key(&self, other: &Task) -> (r: bool) {
        self.id == other.id
    }

    fn is_older(&self, other: &Task) -> (r: bool) {
        self.created_at.is_before(&other.created_at)
    }
}

/// Append-only task store.
///
/// Each task mutation is appended as a full record. Reading replays the log and keeps the
/// latest version of each task (by ID).
pub struct TaskStore {
    path: String,
    log: Vec<Task>,
}

/// What a [`TaskStore`] holds: the path of its file, and the records in the order in which
/// they were appended.
#[verifier::ext_equal]
pub struct TaskStoreView {
    pub path: Seq<char>,
    pub log: Seq<TaskView>,
}

impl View for TaskStore {
    type V = TaskStoreView;

    closed spec fn view(&self) -> TaskStoreView {
        TaskStoreView { path: self.path@, log: views(self.log@) }
    }
}

impl TaskStoreView {
    /// The latest version of every task, oldest task first.
    pub open spec fn everything(self) -> Seq<TaskView> {
        loaded::<Task>(self.log)
    }
}

impl TaskStore {
    /// A store at the given path with no records.
    pub fn new(path: &str) -> (store: TaskStore)
        ensures
            store@ == (TaskStoreView { path: path@, log: Seq::empty() }),
    {
        let store = TaskStore { path: path.to_owned(), log: Vec::new() };
        assert(store@ =~= (TaskStoreView { path: path@, log: Seq::empty() }));
        store
    }

    /// A store at the given path with the given records.
    pub fn from_log(path: &str, log: Vec<Task>) -> (store: TaskStore)
        ensures
            store@ == (TaskStoreView { path: path@, log: views(log@) }),
    {
        TaskStore { path: path.to_owned(), log }
    }

    /// Returns the path to the store file.
    pub fn path(&self) -> (path: &str)
        ensures
            path@ == self@.path,
    {
        self.path.as_str()
    }

    /// Appends a task to the store.
    pub fn append(&mut self, task: &Task)
        ensures
            final(self)@ == (TaskStoreView { log: old(self)@.log.push(task@), ..old(self)@ }),
    {
        self.log.push(task.clone());
        assert(self@ =~= (TaskStoreView { log: old(self)@.log.push(task@), ..old(self)@ }));
    }

    /// Reads all tasks from the store, deduplicating by ID (latest wins).
    pub fn load_all(&self) -> (r: Vec<Task>)
        ensures
            views(r@) == self@.everything(),
    {
        load(&self.log)
    }

    /// Loads tasks filtered by status.
    pub fn load_by_status(&self, status: TaskStatus) -> (r: Vec<Task>)
        ensures
            views(r@) == self@.everything().filter(|t: TaskView| t.status == status),
    {
        let all = self.load_all();
        let ghost pred = |t: TaskView| t.status == status;
        let f = |t: &Task| -> (b: bool)
            ensures
                b == (t@.status == status),
        {
            t.status == status
        };
        keep(&all, f, Ghost(pred))
    }

    /// Loads a single task by ID, or None if not found.
    pub fn load_by_id(&self, id: Uuid) -> (r: Option<Task>)
        ensures
            match r {
                Some(t) => latest::<Task>(self@.log, id) == Some(t@),
                None => latest::<Task>(self@.log, id) is None,
            },
    {
        let ghost log = self@.log;
        let mut i: usize = self.log.len();
        assert(log.take(i as int) =~= log);
        while i > 0
            invariant
                i <= self.log@.len(),
                log == views(self.log@),
                log == self@.log,
                latest::<Task>(log, id) == latest::<Task>(log.take(i as int), id),
            decreases i,
        {
            assert(log.take(i as int).drop_last() =~= log.take(i - 1));
            if self.log[i - 1].id == id {
                return Some(self.log[i - 1].clone());
            }
            i -= 1;
        }
        None
    }

    /// Updates a task by appending its new state. The caller is responsible for mutating the
    /// task before calling this.
    pub fn update(&mut self, task: &Task)
        ensures
            final(self)@ == (TaskStoreView { log: old(self)@.log.push(task@), ..old(self)@ }),
    {
        self.append(task);
    }
}

/// What was appended last for a task is what is found under its ID, and all other tasks are
/// found as before.
pub proof fn law_append_then_find(store: TaskStoreView, task: TaskView, other: Uuid)
    ensures
        latest::<Task>(store.log.push(task), task.id) == Some(task),
        other != task.id ==> latest::<Task>(store.log.push(task), other) == latest::<Task>(
            store.log,
            other,
        ),
{
    crate::log::law_last_write_wins::<Task>(store.log, task, other);
}

/// Two records are of the same task exactly if they have the same identifier, and a task is older
/// than another if it was created earlier.
pub proof fn law_task_identity(a: TaskView, b: TaskView)
    ensures
        <Task as Entry>::key(a) == <Task as Entry>::key(b) <==> a.id == b.id,
        <Task as Entry>::older(a, b) <==> crate::time::earlier(a.created_at, b.created_at),
{
}

/// Tasks come in the order in which they were created, each once and as it was written last.
pub proof fn law_oldest_first(store: TaskStoreView, a: int, b: int)
    requires
        0 <= a < b < store.everything().len(),
    ensures
        !crate::time::earlier(
            store.everything()[b].created_at,
            store.everything()[a].created_at,
        ),
        store.everything()[a].id != store.everything()[b].id,
        latest::<Task>(store.log, store.everything()[a].id) == Some(store.everything()[a]),
{
    let all = store.everything();
    crate::log::law_loaded::<Task>(store.log);
    crate::time::lemma_earlier_all();
    assert(crate::log::comes_before::<Task>(store.log, all[a], all[b]));
    assert(<Task as Entry>::key(all[a]) != <Task as Entry>::key(all[b]));
    assert(all.contains(all[a]));
}

} // verus!

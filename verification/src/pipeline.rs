//! Pipeline directories: isolated work areas with snapshots, compaction and recovery.

use vstd::prelude::*;

use crate::dep::{DepEdge, DepEdgeView};
use crate::dep_store::{DepStore, DepStoreView};
use crate::digits::{decimal, decimal_text};
use crate::id::OrbId;
use crate::lists::{in_order, lemma_filter, lemma_filter_all, lemma_remove_dropped};
use crate::log::{duplicate_all, latest, load, loaded, views, Duplicate};
use crate::orb::{Orb, OrbView};
use crate::orb_store::{OrbStore, OrbStoreView};
use crate::paths::{join_path, joined_path};
use crate::text::{chars_of, concat, contains_text, opt_text, str_eq, text_of, texts};
use crate::time::{earlier, formatted, lemma_earlier_all, rfc3339, utc_now, Timestamp};

verus! {

/// The files of a pipeline, none where a file is not there. The events are kept as they are, as
/// bytes.
#[derive(Debug)]
pub struct Files {
    pub orbs: Option<Vec<Orb>>,
    pub deps: Option<Vec<DepEdge>>,
    pub events: Option<Vec<u8>>,
}

/// What a [`Files`] holds.
#[verifier::ext_equal]
pub struct FilesView {
    pub orbs: Option<Seq<OrbView>>,
    pub deps: Option<Seq<DepEdgeView>>,
    pub events: Option<Seq<u8>>,
}

/// What a log holds that may not be there.
pub open spec fn opt_views<T: View>(log: Option<Vec<T>>) -> Option<Seq<T::V>> {
    match log {
        Some(log) => Some(views(log@)),
        None => None,
    }
}

/// The records of a log. One that is not there has none.
pub open spec fn or_empty<A>(log: Option<Seq<A>>) -> Seq<A> {
    match log {
        Some(log) => log,
        None => Seq::empty(),
    }
}

impl View for Files {
    type V = FilesView;

    open spec fn view(&self) -> FilesView {
        FilesView {
            orbs: opt_views(self.orbs),
            deps: opt_views(self.deps),
            events: match self.events {
                Some(bytes) => Some(bytes@),
                None => None,
            },
        }
    }
}

impl FilesView {
    /// The files with an empty one for each that is not there.
    pub open spec fn completed(self) -> FilesView {
        FilesView {
            orbs: Some(or_empty(self.orbs)),
            deps: Some(or_empty(self.deps)),
            events: Some(or_empty(self.events)),
        }
    }

    /// The files with those of `saved` that are there in their place.
    pub open spec fn restored(self, saved: FilesView) -> FilesView {
        FilesView {
            orbs: if saved.orbs is Some {
                saved.orbs
            } else {
                self.orbs
            },
            deps: if saved.deps is Some {
                saved.deps
            } else {
                self.deps
            },
            events: if saved.events is Some {
                saved.events
            } else {
                self.events
            },
        }
    }

    /// The active edges.
    pub open spec fn active_deps(self) -> Seq<DepEdgeView> {
        loaded::<DepEdge>(or_empty(self.deps)).filter(|e: DepEdgeView| e.removed_at is None)
    }

    /// The files compacted: of those that are there the orbs have only the latest state of
    /// every orb and the edges only the active ones, and the events are as they were.
    pub open spec fn compacted(self) -> FilesView {
        FilesView {
            orbs: match self.orbs {
                Some(log) => Some(loaded::<Orb>(log)),
                None => None,
            },
            deps: match self.deps {
                Some(log) => Some(self.active_deps()),
                None => None,
            },
            events: self.events,
        }
    }
}

/// A copy of a log that may not be there.
fn copy_log<T: Duplicate>(log: &Option<Vec<T>>) -> (r: Option<Vec<T>>)
    ensures
        opt_views(r) == opt_views(*log),
{
    match log {
        Some(log) => Some(duplicate_all(log)),
        None => None,
    }
}

/// A copy of some bytes.
fn copy_bytes(bytes: &Vec<u8>) -> (r: Vec<u8>)
    ensures
        r@ == bytes@,
{
    let mut r: Vec<u8> = Vec::new();
    let mut i: usize = 0;
    while i < bytes.len()
        invariant
            i <= bytes@.len(),
            r@ == bytes@.take(i as int),
        decreases bytes@.len() - i,
    {
        r.push(bytes[i]);
        i += 1;
        assert(bytes@.take(i as int) =~= bytes@.take(i - 1).push(bytes@[i - 1]));
    }
    assert(bytes@.take(i as int) =~= bytes@);
    r
}

impl Files {
    /// A copy of the files.
    fn copy(&self) -> (r: Files)
        ensures
            r@ == self@,
    {
        Files {
            orbs: copy_log(&self.orbs),
            deps: copy_log(&self.deps),
            events: match &self.events {
                Some(bytes) => Some(copy_bytes(bytes)),
                None => None,
            },
        }
    }

    /// The files with an empty one for each that is not there.
    fn complete(self) -> (r: Files)
        ensures
            r@ == self@.completed(),
    {
        let orbs = match self.orbs {
            Some(log) => log,
            None => Vec::new(),
        };
        let deps = match self.deps {
            Some(log) => log,
            None => Vec::new(),
        };
        let events = match self.events {
            Some(bytes) => bytes,
            None => Vec::new(),
        };
        let r = Files { orbs: Some(orbs), deps: Some(deps), events: Some(events) };
        assert(r@.orbs->0 =~= self@.completed().orbs->0);
        assert(r@.deps->0 =~= self@.completed().deps->0);
        assert(r@.events->0 =~= self@.completed().events->0);
        r
    }
}

/// A copy of the state of a pipeline.
#[derive(Debug)]
pub struct Snapshot {
    /// The directory that holds the snapshot.
    pub path: String,
    /// When the snapshot was taken.
    pub taken_at: Timestamp,
    pub files: Files,
}

/// What a [`Snapshot`] holds.
pub struct SnapshotView {
    pub path: Seq<char>,
    pub taken_at: Timestamp,
    pub files: FilesView,
}

impl View for Snapshot {
    type V = SnapshotView;

    open spec fn view(&self) -> SnapshotView {
        SnapshotView { path: self.path@, taken_at: self.taken_at, files: self.files@ }
    }
}

/// A file as it was before a compaction.
#[derive(Debug)]
pub enum Archived {
    Orbs { path: String, orbs: Vec<Orb> },
    Deps { path: String, deps: Vec<DepEdge> },
    Events { path: String, events: Vec<u8> },
}

/// What an [`Archived`] holds.
pub enum ArchivedView {
    Orbs { path: Seq<char>, orbs: Seq<OrbView> },
    Deps { path: Seq<char>, deps: Seq<DepEdgeView> },
    Events { path: Seq<char>, events: Seq<u8> },
}

impl View for Archived {
    type V = ArchivedView;

    open spec fn view(&self) -> ArchivedView {
        match self {
            Archived::Orbs { path, orbs } => ArchivedView::Orbs { path: path@, orbs: views(orbs@) },
            Archived::Deps { path, deps } => ArchivedView::Deps { path: path@, deps: views(deps@) },
            Archived::Events { path, events } => ArchivedView::Events {
                path: path@,
                events: events@,
            },
        }
    }
}

impl ArchivedView {
    /// The path of the archived file.
    pub open spec fn file(self) -> Seq<char> {
        match self {
            ArchivedView::Orbs { path, .. } => path,
            ArchivedView::Deps { path, .. } => path,
            ArchivedView::Events { path, .. } => path,
        }
    }
}

impl Archived {
    /// The path of the archived file.
    pub fn file(&self) -> (path: &str)
        ensures
            path@ == self@.file(),
    {
        match self {
            Archived::Orbs { path, .. } => path.as_str(),
            Archived::Deps { path, .. } => path.as_str(),
            Archived::Events { path, .. } => path.as_str(),
        }
    }
}

/// The history with one more archived file, in place of one that was under the same path.
pub open spec fn with_archived(history: Seq<ArchivedView>, a: ArchivedView) -> Seq<ArchivedView> {
    history.filter(|x: ArchivedView| x.file() != a.file()).push(a)
}

/// The path in the history of a file that was archived under the given stamp.
pub open spec fn history_path(root: Seq<char>, prefix: Seq<char>, stamp: Seq<char>) -> Seq<char> {
    joined_path(joined_path(root, "history"@), prefix + stamp + ".jsonl"@)
}

/// A pipeline directory: `pipelines/<type>-<hash>/`
///
/// Inside each pipeline dir:
/// - `orbs.jsonl`: pipeline-local orb store
/// - `deps.jsonl`: pipeline-local dependency edges
/// - `events.jsonl`: pipeline-local audit events
/// - `snapshots/`: phase snapshots (e.g. `snapshots/decomposition/`)
/// - `history/`: compacted history
#[derive(Debug)]
pub struct PipelineDir {
    root: String,
    files: Files,
    snapshots: Vec<Snapshot>,
    history: Vec<Archived>,
    lock: Option<String>,
}

/// What a [`PipelineDir`] holds: its root path, its files, its snapshots and archived files in
/// the order in which they were made, and the text of its lock file.
#[verifier::ext_equal]
pub struct PipelineView {
    pub root: Seq<char>,
    pub files: FilesView,
    pub snapshots: Seq<SnapshotView>,
    pub history: Seq<ArchivedView>,
    pub lock: Option<Seq<char>>,
}

impl View for PipelineDir {
    type V = PipelineView;

    closed spec fn view(&self) -> PipelineView {
        PipelineView {
            root: self.root@,
            files: self.files@,
            snapshots: views(self.snapshots@),
            history: views(self.history@),
            lock: opt_text(self.lock),
        }
    }
}

/// A pipeline with empty files.
pub open spec fn empty_pipeline(root: Seq<char>) -> PipelineView {
    PipelineView {
        root,
        files: FilesView {
            orbs: Some(Seq::empty()),
            deps: Some(Seq::empty()),
            events: Some(Seq::empty()),
        },
        snapshots: Seq::empty(),
        history: Seq::empty(),
        lock: None,
    }
}

impl PipelineView {
    /// The paths of the snapshots.
    pub open spec fn snapshot_paths(self) -> Seq<Seq<char>> {
        self.snapshots.map_values(|s: SnapshotView| s.path)
    }

    /// The times of the snapshots.
    pub open spec fn snapshot_times(self) -> Seq<Timestamp> {
        self.snapshots.map_values(|s: SnapshotView| s.taken_at)
    }

    /// The pipeline with a snapshot of its current state.
    pub open spec fn with_snapshot(self, path: Seq<char>, now: Timestamp) -> PipelineView {
        PipelineView {
            snapshots: self.snapshots.push(
                SnapshotView { path, taken_at: now, files: self.files },
            ),
            ..self
        }
    }

    /// The history with the orbs as they are, if their file is there.
    pub open spec fn orbs_archived(self, stamp: Seq<char>) -> Seq<ArchivedView> {
        match self.files.orbs {
            Some(orbs) => with_archived(
                self.history,
                ArchivedView::Orbs { path: history_path(self.root, "orbs-"@, stamp), orbs },
            ),
            None => self.history,
        }
    }

    /// The history with the orbs and the edges as they are, if their files are there.
    pub open spec fn deps_archived(self, stamp: Seq<char>) -> Seq<ArchivedView> {
        match self.files.deps {
            Some(deps) => with_archived(
                self.orbs_archived(stamp),
                ArchivedView::Deps { path: history_path(self.root, "deps-"@, stamp), deps },
            ),
            None => self.orbs_archived(stamp),
        }
    }

    /// The history with the files as they are, those that are there.
    pub open spec fn all_archived(self, stamp: Seq<char>) -> Seq<ArchivedView> {
        match self.files.events {
            Some(events) => with_archived(
                self.deps_archived(stamp),
                ArchivedView::Events { path: history_path(self.root, "events-"@, stamp), events },
            ),
            None => self.deps_archived(stamp),
        }
    }

    /// The pipeline compacted: the files that are there are compacted, as they were they are in
    /// the history under the given stamp, and there is no lock.
    pub open spec fn compacted_as(self, stamp: Seq<char>) -> PipelineView {
        PipelineView {
            files: self.files.compacted(),
            history: self.all_archived(stamp),
            lock: None,
            ..self
        }
    }

    /// The pipeline compacted at `now`, which is the stamp in its history.
    pub open spec fn compacted(self, now: Timestamp) -> PipelineView {
        self.compacted_as(formatted(now@.secs, now@.nanos, "%Y%m%d%H%M%S"@))
    }

    /// The pipeline after recovery: without a lock it is left as it is; with one it has the
    /// files of the latest snapshot, if there is any, in place of its own, and no lock. Files
    /// that the snapshot lacks are left alone.
    pub open spec fn recovered(self) -> PipelineView {
        if self.lock is None {
            self
        } else {
            match latest_of(self.snapshot_times(), self.snapshots.len()) {
                Some(i) => PipelineView {
                    files: self.files.restored(self.snapshots[i].files),
                    lock: None,
                    ..self
                },
                None => PipelineView { lock: None, ..self },
            }
        }
    }
}

/// The place of the latest of the first `n` times, the first where several are.
pub open spec fn latest_of(times: Seq<Timestamp>, n: nat) -> Option<int>
    decreases n,
{
    if n == 0 {
        None
    } else {
        match latest_of(times, (n - 1) as nat) {
            Some(i) => if earlier(times[i], times[n - 1]) {
                Some(n - 1)
            } else {
                Some(i)
            },
            None => Some(n - 1),
        }
    }
}

/// The part of an identifier after `orb-`, or all of it.
pub open spec fn hash_part(id: Seq<char>) -> Seq<char> {
    if id.len() >= 4 && id.take(4) == seq!['o', 'r', 'b', '-'] {
        id.skip(4)
    } else {
        id
    }
}

/// The first eight characters of a text, or all of it.
pub open spec fn first_eight(s: Seq<char>) -> Seq<char> {
    if s.len() > 8 {
        s.take(8)
    } else {
        s
    }
}

/// The name of the directory of the pipeline for an orb.
pub open spec fn dir_name(orb: OrbView) -> Seq<char> {
    orb.orb_type.name() + seq!['-'] + first_eight(hash_part(orb.id))
}

/// Generates the directory name for a pipeline: `<type>-<hash_prefix>`.
///
/// Uses the orb's type and the first 8 chars of its ID (after the `orb-` prefix).
pub fn pipeline_dir_name(orb: &Orb) -> (name: String)
    ensures
        name@ == dir_name(orb@),
{
    let v = chars_of(orb.id.as_str());
    let len: usize = v.len();
    let ghost id = orb@.id;
    let from: usize = if len >= 4 && v[0] == 'o' && v[1] == 'r' && v[2] == 'b' && v[3] == '-' {
        assert(id.take(4) =~= seq!['o', 'r', 'b', '-']);
        4
    } else {
        proof {
            if len >= 4 && id.take(4) == seq!['o', 'r', 'b', '-'] {
                assert(id.take(4)[0] == 'o' && id.take(4)[1] == 'r' && id.take(4)[2] == 'b'
                    && id.take(4)[3] == '-');
            }
        }
        0
    };
    let to: usize = if len - from > 8 {
        from + 8
    } else {
        len
    };
    let part = text_of(&v, from, to);
    assert(part@ =~= first_eight(hash_part(id)));
    let mut name = orb.orb_type.as_hash_str().to_owned();
    name.push('-');
    name.append(part.as_str());
    assert(name@ =~= dir_name(orb@));
    name
}

/// The directory of the pipeline for an orb.
pub open spec fn pipeline_root(base_dir: Seq<char>, orb: OrbView) -> Seq<char> {
    joined_path(joined_path(base_dir, "pipelines"@), dir_name(orb))
}

/// The directory of the pipeline for an orb: `<base_dir>/pipelines/<type>-<hash>/`.
fn root_for(base_dir: &str, orb: &Orb) -> (root: String)
    ensures
        root@ == pipeline_root(base_dir@, orb@),
{
    let pipelines = join_path(base_dir, "pipelines");
    let name = pipeline_dir_name(orb);
    join_path(pipelines.as_str(), name.as_str())
}

/// Creates a pipeline for the given orb, where its directory does not exist yet. Its files are
/// empty.
///
/// Its directory is `<base_dir>/pipelines/<type>-<hash>/`.
pub fn create_pipeline(base_dir: &str, orb: &Orb) -> (p: PipelineDir)
    ensures
        p@ == empty_pipeline(pipeline_root(base_dir@, orb@)),
{
    create_pipeline_over(base_dir, orb, None)
}

/// Creates a pipeline for the given orb, where its directory may already hold one. What is
/// there is kept, and each file that is not there is created empty.
pub fn create_pipeline_over(base_dir: &str, orb: &Orb, existing: Option<PipelineDir>) -> (p:
    PipelineDir)
    ensures
        match existing {
            Some(e) => p@ == (PipelineView {
                root: pipeline_root(base_dir@, orb@),
                files: e@.files.completed(),
                ..e@
            }),
            None => p@ == empty_pipeline(pipeline_root(base_dir@, orb@)),
        },
{
    let root = root_for(base_dir, orb);
    match existing {
        Some(e) => PipelineDir {
            root,
            files: e.files.complete(),
            snapshots: e.snapshots,
            history: e.history,
            lock: e.lock,
        },
        None => {
            let files = Files { orbs: None, deps: None, events: None };
            let p = PipelineDir {
                root,
                files: files.complete(),
                snapshots: Vec::new(),
                history: Vec::new(),
                lock: None,
            };
            assert(p@ =~= empty_pipeline(pipeline_root(base_dir@, orb@)));
            p
        },
    }
}

impl PipelineDir {
    /// The pipeline whose directory `root` holds the given files, snapshots and archived files
    /// and, where it is locked, a lock file with the given text.
    pub fn from_parts(
        root: &str,
        files: Files,
        snapshots: Vec<Snapshot>,
        history: Vec<Archived>,
        lock: Option<String>,
    ) -> (p: PipelineDir)
        ensures
            p@ == (PipelineView {
                root: root@,
                files: files@,
                snapshots: views(snapshots@),
                history: views(history@),
                lock: opt_text(lock),
            }),
    {
        PipelineDir { root: root.to_owned(), files, snapshots, history, lock }
    }

    /// Returns the root path of this pipeline directory.
    pub fn root(&self) -> (path: &str)
        ensures
            path@ == self@.root,
    {
        self.root.as_str()
    }

    /// Returns the path to the pipeline's `orbs.jsonl`.
    pub fn orbs_path(&self) -> (path: String)
        ensures
            path@ == joined_path(self@.root, "orbs.jsonl"@),
    {
        join_path(self.root.as_str(), "orbs.jsonl")
    }

    /// Returns the path to the pipeline's `deps.jsonl`.
    pub fn deps_path(&self) -> (path: String)
        ensures
            path@ == joined_path(self@.root, "deps.jsonl"@),
    {
        join_path(self.root.as_str(), "deps.jsonl")
    }

    /// Returns the path to the pipeline's `events.jsonl`.
    pub fn events_path(&self) -> (path: String)
        ensures
            path@ == joined_path(self@.root, "events.jsonl"@),
    {
        join_path(self.root.as_str(), "events.jsonl")
    }

    /// Returns the path to the `snapshots/` subdirectory.
    pub fn snapshots_dir(&self) -> (path: String)
        ensures
            path@ == joined_path(self@.root, "snapshots"@),
    {
        join_path(self.root.as_str(), "snapshots")
    }

    /// Returns the path to the `history/` subdirectory.
    pub fn history_dir(&self) -> (path: String)
        ensures
            path@ == joined_path(self@.root, "history"@),
    {
        join_path(self.root.as_str(), "history")
    }

    /// Returns the path to the `.lock` file used for mutation safety.
    pub fn lock_path(&self) -> (path: String)
        ensures
            path@ == joined_path(self@.root, ".lock"@),
    {
        join_path(self.root.as_str(), ".lock")
    }

    /// Returns true if the pipeline has an active lock (incomplete mutation).
    pub fn is_locked(&self) -> (r: bool)
        ensures
            r == (self@.lock is Some),
    {
        self.lock.is_some()
    }

    /// Returns the files of the pipeline.
    pub fn files(&self) -> (files: &Files)
        ensures
            files@ == self@.files,
    {
        &self.files
    }

    /// Returns the `OrbStore` for this pipeline's local orbs.
    pub fn orb_store(&self) -> (store: OrbStore)
        ensures
            store@ == (OrbStoreView {
                path: joined_path(self@.root, "orbs.jsonl"@),
                log: or_empty(self@.files.orbs),
            }),
    {
        let path = self.orbs_path();
        let log = match &self.files.orbs {
            Some(log) => duplicate_all(log),
            None => Vec::new(),
        };
        assert(views(log@) =~= or_empty(self@.files.orbs));
        OrbStore::from_log(path.as_str(), log)
    }

    /// Returns the `DepStore` for this pipeline's local dependency edges.
    pub fn dep_store(&self) -> (store: DepStore)
        ensures
            store@ == (DepStoreView {
                path: joined_path(self@.root, "deps.jsonl"@),
                log: or_empty(self@.files.deps),
            }),
    {
        let path = self.deps_path();
        let log = match &self.files.deps {
            Some(log) => duplicate_all(log),
            None => Vec::new(),
        };
        assert(views(log@) =~= or_empty(self@.files.deps));
        DepStore::from_log(path.as_str(), log)
    }

    /// Appends an orb to the pipeline's orbs. Their file is created where it is not there.
    pub fn append_orb(&mut self, orb: &Orb)
        ensures
            final(self)@.files.orbs == Some(or_empty(old(self)@.files.orbs).push(orb@)),
            final(self)@ == (PipelineView {
                files: FilesView { orbs: final(self)@.files.orbs, ..old(self)@.files },
                ..old(self)@
            }),
    {
        let mut log = match &self.files.orbs {
            Some(log) => duplicate_all(log),
            None => Vec::new(),
        };
        assert(views(log@) =~= or_empty(self@.files.orbs));
        let ghost before = views(log@);
        log.push(orb.clone());
        assert(views(log@) =~= before.push(orb@));
        self.files.orbs = Some(log);
    }

    /// Appends an edge to the pipeline's edges. Their file is created where it is not there.
    pub fn append_dep(&mut self, edge: &DepEdge)
        ensures
            final(self)@.files.deps == Some(or_empty(old(self)@.files.deps).push(edge@)),
            final(self)@ == (PipelineView {
                files: FilesView { deps: final(self)@.files.deps, ..old(self)@.files },
                ..old(self)@
            }),
    {
        let mut log = match &self.files.deps {
            Some(log) => duplicate_all(log),
            None => Vec::new(),
        };
        assert(views(log@) =~= or_empty(self@.files.deps));
        let ghost before = views(log@);
        log.push(edge.clone());
        assert(views(log@) =~= before.push(edge@));
        self.files.deps = Some(log);
    }

    /// Replaces the files of the pipeline.
    pub fn set_files(&mut self, files: Files)
        ensures
            final(self)@ == (PipelineView { files: files@, ..old(self)@ }),
    {
        self.files = files;
    }

    /// Locks the pipeline: a mutation is in progress since `now`.
    pub fn write_lock(&mut self, now: Timestamp)
        ensures
            final(self)@ == (PipelineView {
                lock: Some(rfc3339(now@.secs, now@.nanos)),
                ..old(self)@
            }),
    {
        self.lock_with(now.rfc3339_text());
    }

    /// Locks the pipeline with a lock file of the given text.
    pub fn lock_with(&mut self, text: String)
        ensures
            final(self)@ == (PipelineView { lock: Some(text@), ..old(self)@ }),
    {
        self.lock = Some(text);
        assert(self@ =~= (PipelineView { lock: Some(text@), ..old(self)@ }));
    }

    /// Removes the lock.
    pub fn remove_lock(&mut self)
        ensures
            final(self)@ == (PipelineView { lock: None, ..old(self)@ }),
    {
        self.lock = None;
        assert(self@ =~= (PipelineView { lock: None, ..old(self)@ }));
    }

    /// Returns the snapshots, in the order in which they were taken.
    pub fn snapshots(&self) -> (s: &Vec<Snapshot>)
        ensures
            views(s@) == self@.snapshots,
    {
        &self.snapshots
    }

    /// Returns the archived files, in the order in which they were archived.
    pub fn history(&self) -> (h: &Vec<Archived>)
        ensures
            views(h@) == self@.history,
    {
        &self.history
    }
}

/// Errors of pipeline operations.
#[derive(Debug)]
pub enum PipelineError {
    /// All names for a snapshot of the phase are taken.
    TooManySnapshots { phase: String },
}

impl PipelineError {
    /// The text of the error.
    pub fn message(&self) -> (s: String)
        ensures
            match self {
                PipelineError::TooManySnapshots { phase } => s@ == "too many snapshots for phase "@
                    + phase@,
            },
    {
        match self {
            PipelineError::TooManySnapshots { phase } => {
                concat("too many snapshots for phase ", phase.as_str())
            },
        }
    }
}

/// The path for snapshot number `k` of a phase: the name of the phase, from 1 on with the
/// number behind it.
pub open spec fn snapshot_path(dir: Seq<char>, phase: Seq<char>, k: nat) -> Seq<char> {
    if k == 0 {
        joined_path(dir, phase)
    } else {
        joined_path(dir, phase + seq!['-'] + decimal(k))
    }
}

/// The first path from number `k` on that is not taken, of a thousand.
pub open spec fn free_snapshot_path(
    dir: Seq<char>,
    phase: Seq<char>,
    taken: Seq<Seq<char>>,
    k: nat,
) -> Option<Seq<char>>
    decreases 1000 - k,
{
    if k >= 1000 {
        None
    } else if taken.contains(snapshot_path(dir, phase, k)) {
        free_snapshot_path(dir, phase, taken, k + 1)
    } else {
        Some(snapshot_path(dir, phase, k))
    }
}

/// The path for snapshot number `k` of a phase.
pub fn snapshot_candidate(dir: &str, phase: &str, k: u32) -> (path: String)
    ensures
        path@ == snapshot_path(dir@, phase@, k as nat),
{
    if k == 0 {
        return join_path(dir, phase);
    }
    let mut name = phase.to_owned();
    name.push('-');
    let n = decimal_text(k as u128);
    name.append(n.as_str());
    assert(name@ =~= phase@ + seq!['-'] + decimal(k as nat));
    join_path(dir, name.as_str())
}

/// Finds an available snapshot directory, appending a numeric suffix on conflict. `taken` are
/// the paths that exist.
///
/// # Errors
///
/// `TooManySnapshots` if the name of the phase and all names with a suffix up to 999 are taken.
pub fn find_available_snapshot_dir(snapshots_dir: &str, phase_name: &str, taken: &Vec<String>) -> (r:
    Result<String, PipelineError>)
    ensures
        match r {
            Ok(path) => free_snapshot_path(snapshots_dir@, phase_name@, texts(taken@), 0) == Some(
                path@,
            ),
            Err(PipelineError::TooManySnapshots { phase }) => phase@ == phase_name@
                && free_snapshot_path(snapshots_dir@, phase_name@, texts(taken@), 0) is None,
        },
{
    let mut k: u32 = 0;
    while k < 1000
        invariant
            k <= 1000,
            free_snapshot_path(snapshots_dir@, phase_name@, texts(taken@), 0)
                == free_snapshot_path(snapshots_dir@, phase_name@, texts(taken@), k as nat),
        decreases 1000 - k,
    {
        let path = snapshot_candidate(snapshots_dir, phase_name, k);
        if !contains_text(taken, path.as_str()) {
            return Ok(path);
        }
        k += 1;
    }
    Err(PipelineError::TooManySnapshots { phase: phase_name.to_owned() })
}

/// Copies the current pipeline state to a named snapshot and returns its path.
///
/// If a snapshot with a conflicting name exists, a numeric suffix is appended (e.g.
/// `refinement-1`, `refinement-2`).
///
/// # Errors
///
/// As for [`find_available_snapshot_dir`]. The pipeline is then left as it was.
pub fn snapshot(pipeline: &mut PipelineDir, phase_name: &str) -> (r: Result<String, PipelineError>)
    ensures
        ({
            let free = free_snapshot_path(
                joined_path(old(pipeline)@.root, "snapshots"@),
                phase_name@,
                old(pipeline)@.snapshot_paths(),
                0,
            );
            match r {
                Ok(path) => free == Some(path@) && final(pipeline)@ == old(pipeline)@.with_snapshot(
                    path@,
                    final(pipeline)@.snapshots.last().taken_at,
                ),
                Err(PipelineError::TooManySnapshots { phase }) => phase@ == phase_name@ && free
                    is None && final(pipeline)@ == old(pipeline)@,
            }
        }),
{
    snapshot_at(pipeline, phase_name, utc_now())
}

/// Copies the current pipeline state to a named snapshot, as taken at `now`.
///
/// # Errors
///
/// As for [`snapshot`].
pub fn snapshot_at(pipeline: &mut PipelineDir, phase_name: &str, now: Timestamp) -> (r: Result<
    String,
    PipelineError,
>)
    ensures
        ({
            let free = free_snapshot_path(
                joined_path(old(pipeline)@.root, "snapshots"@),
                phase_name@,
                old(pipeline)@.snapshot_paths(),
                0,
            );
            match r {
                Ok(path) => free == Some(path@) && final(pipeline)@ == old(pipeline)@.with_snapshot(
                    path@,
                    now,
                ),
                Err(PipelineError::TooManySnapshots { phase }) => phase@ == phase_name@ && free
                    is None && final(pipeline)@ == old(pipeline)@,
            }
        }),
{
    let mut taken: Vec<String> = Vec::new();
    let mut i: usize = 0;
    while i < pipeline.snapshots.len()
        invariant
            i <= pipeline.snapshots@.len(),
            taken@.len() == i,
            forall|j: int|
                0 <= j < i ==> (#[trigger] taken@[j])@ == pipeline.snapshots@[j].path@,
            *pipeline == *old(pipeline),
        decreases pipeline.snapshots@.len() - i,
    {
        taken.push(pipeline.snapshots[i].path.clone());
        i += 1;
    }
    assert(texts(taken@) =~= pipeline@.snapshot_paths());
    let dir = pipeline.snapshots_dir();
    let path = match find_available_snapshot_dir(dir.as_str(), phase_name, &taken) {
        Ok(path) => path,
        Err(e) => {
            return Err(e);
        },
    };
    let copy = Snapshot { path: path.clone(), taken_at: now, files: pipeline.files.copy() };
    pipeline.snapshots.push(copy);
    assert(pipeline@ =~= old(pipeline)@.with_snapshot(path@, now));
    Ok(path)
}

/// The path in the history of a file that is archived under the given stamp.
pub fn archive_path(root: &str, prefix: &str, stamp: &str) -> (path: String)
    ensures
        path@ == history_path(root@, prefix@, stamp@),
{
    let dir = join_path(root, "history");
    let mut name = concat(prefix, stamp);
    name.append(".jsonl");
    join_path(dir.as_str(), name.as_str())
}

/// Archives a file, in place of one that is under the same path.
fn archive(history: &mut Vec<Archived>, a: Archived)
    ensures
        views(final(history)@) == with_archived(views(old(history)@), a@),
{
    let ghost pred = |x: ArchivedView| x.file() != a@.file();
    let mut i: usize = 0;
    while i < history.len()
        invariant
            i <= history@.len(),
            pred == |x: ArchivedView| x.file() != a@.file(),
            views(history@).filter(pred) == views(old(history)@).filter(pred),
            forall|j: int| 0 <= j < i ==> pred(#[trigger] views(history@)[j]),
        decreases history@.len() - i,
    {
        let ghost before = views(history@);
        assert(before[i as int] == history@[i as int]@);
        if str_eq(history[i].file(), a.file()) {
            history.remove(i);
            proof {
                assert(views(history@) =~= before.remove(i as int));
                lemma_remove_dropped(before, pred, i as int);
                assert forall|j: int| 0 <= j < i implies pred(#[trigger] views(history@)[j]) by {
                    assert(pred(before[j]));
                }
            }
        } else {
            i += 1;
        }
    }
    let ghost kept = views(history@);
    proof {
        lemma_filter_all(kept, pred);
    }
    history.push(a);
    assert(views(history@) =~= kept.push(a@));
}

/// Compacts the pipeline's files: keeps only the latest state per orb, the active edges and the
/// events, and archives the files as they were. A file that is not there stays away.
pub fn compact(pipeline: &mut PipelineDir)
    ensures
        exists|now: Timestamp| final(pipeline)@ == #[trigger] old(pipeline)@.compacted(now),
{
    let now = utc_now();
    compact_at(pipeline, now);
}

/// Compacts the pipeline's files at `now`.
pub fn compact_at(pipeline: &mut PipelineDir, now: Timestamp)
    ensures
        final(pipeline)@ == old(pipeline)@.compacted(now),
{
    pipeline.write_lock(now);
    let stamp = now.compact_text();
    compact_as(pipeline, stamp.as_str());
    assert(pipeline@ =~= old(pipeline)@.compacted(now));
}

/// Compacts the pipeline's files, and archives them as they were under the given stamp.
pub fn compact_as(pipeline: &mut PipelineDir, stamp: &str)
    ensures
        final(pipeline)@ == old(pipeline)@.compacted_as(stamp@),
{
    let ghost p = pipeline@;
    if let Some(orbs) = copy_log(&pipeline.files.orbs) {
        let path = archive_path(pipeline.root.as_str(), "orbs-", stamp);
        let latest = load(&orbs);
        archive(&mut pipeline.history, Archived::Orbs { path, orbs });
        pipeline.files.orbs = Some(latest);
    }
    assert(pipeline@.history == p.orbs_archived(stamp@));
    assert(pipeline@.files.orbs == p.files.compacted().orbs);
    if let Some(deps) = copy_log(&pipeline.files.deps) {
        let path = archive_path(pipeline.root.as_str(), "deps-", stamp);
        let active = pipeline.dep_store().all_edges();
        archive(&mut pipeline.history, Archived::Deps { path, deps });
        pipeline.files.deps = Some(active);
    }
    assert(pipeline@.history == p.deps_archived(stamp@));
    assert(pipeline@.files.deps == p.files.compacted().deps);
    if let Some(bytes) = &pipeline.files.events {
        let path = archive_path(pipeline.root.as_str(), "events-", stamp);
        let events = copy_bytes(bytes);
        archive(&mut pipeline.history, Archived::Events { path, events });
    }
    pipeline.remove_lock();
    assert(pipeline@ =~= p.compacted_as(stamp@));
}

/// Resolves the appropriate `OrbStore` for a given orb ID: the first of the pipelines' stores
/// that holds the orb, or else the canonical store.
pub fn resolve_store<'a>(canonical: &'a OrbStore, pipelines: &'a Vec<OrbStore>, orb_id: &OrbId) -> (r:
    &'a OrbStore)
    ensures
        match first_holding(views(pipelines@), orb_id@, pipelines@.len()) {
            Some(i) => *r == pipelines@[i],
            None => *r == *canonical,
        },
{
    let ghost stores = views(pipelines@);
    let mut i: usize = 0;
    while i < pipelines.len()
        invariant
            i <= pipelines@.len(),
            stores == views(pipelines@),
            first_holding(stores, orb_id@, i as nat) is None,
        decreases pipelines@.len() - i,
    {
        assert(stores[i as int] == pipelines@[i as int]@);
        if pipelines[i].load_by_id(orb_id).is_some() {
            proof {
                lemma_first_holding_stays(stores, orb_id@, (i + 1) as nat, stores.len());
            }
            return &pipelines[i];
        }
        i += 1;
    }
    canonical
}

/// The place of the first of the first `n` stores that holds an orb.
pub open spec fn first_holding(stores: Seq<OrbStoreView>, id: Seq<char>, n: nat) -> Option<int>
    decreases n,
{
    if n == 0 {
        None
    } else {
        match first_holding(stores, id, (n - 1) as nat) {
            Some(i) => Some(i),
            None => if stores[n - 1].find(id) is Some {
                Some(n - 1)
            } else {
                None
            },
        }
    }
}

/// The first among some is the first among all.
proof fn lemma_first_holding_stays(stores: Seq<OrbStoreView>, id: Seq<char>, n: nat, m: nat)
    requires
        n <= m,
        first_holding(stores, id, n) is Some,
    ensures
        first_holding(stores, id, m) == first_holding(stores, id, n),
    decreases m,
{
    if n < m {
        lemma_first_holding_stays(stores, id, n, (m - 1) as nat);
    }
}

/// The place of the latest of some times, the first where several are.
pub fn find_latest(times: &Vec<Timestamp>) -> (r: Option<usize>)
    ensures
        match r {
            Some(i) => i < times@.len() && latest_of(times@, times@.len()) == Some(i as int),
            None => times@.len() == 0,
        },
{
    if times.len() == 0 {
        return None;
    }
    let mut best: usize = 0;
    let mut i: usize = 1;
    assert(latest_of(times@, 0) is None);
    assert(latest_of(times@, 1) == Some(0int));
    while i < times.len()
        invariant
            best < i <= times@.len(),
            latest_of(times@, i as nat) == Some(best as int),
        decreases times@.len() - i,
    {
        if times[best].is_before(&times[i]) {
            best = i;
        }
        i += 1;
    }
    Some(best)
}

/// The latest time is one that no other is later than, and the first of those.
pub proof fn law_latest_time(times: Seq<Timestamp>, n: nat)
    requires
        n <= times.len(),
    ensures
        latest_of(times, n) is None <==> n == 0,
        latest_of(times, n) matches Some(i) ==> {
            &&& 0 <= i < n
            &&& forall|j: int| 0 <= j < n ==> !earlier(times[i], #[trigger] times[j])
            &&& forall|j: int| 0 <= j < i ==> earlier(#[trigger] times[j], times[i])
        },
    decreases n,
{
    if n > 0 {
        law_latest_time(times, (n - 1) as nat);
        lemma_earlier_all();
    }
}

/// What a snapshot has: when it was taken, and which of the files.
#[derive(Debug, Clone, Copy)]
pub struct SnapshotInfo {
    pub taken_at: Timestamp,
    pub orbs: bool,
    pub deps: bool,
    pub events: bool,
}

/// What recovery does.
#[derive(Debug, Clone, Copy, PartialEq, Eq)]
pub enum Recovery {
    /// Nothing: there is no lock.
    NotNeeded,
    /// Only the lock is removed: there is no snapshot.
    Unlock,
    /// The files that are named are restored from a snapshot, and the lock is removed.
    Restore { snapshot: usize, orbs: bool, deps: bool, events: bool },
}

/// The times of the snapshots.
pub open spec fn info_times(snapshots: Seq<SnapshotInfo>) -> Seq<Timestamp> {
    snapshots.map_values(|s: SnapshotInfo| s.taken_at)
}

/// Decides how a pipeline is recovered: with a lock from the latest snapshot, and of that all
/// files that it has.
pub fn plan_recovery(locked: bool, snapshots: &Vec<SnapshotInfo>) -> (r: Recovery)
    ensures
        match r {
            Recovery::NotNeeded => !locked,
            Recovery::Unlock => locked && snapshots@.len() == 0,
            Recovery::Restore { snapshot, orbs, deps, events } => {
                &&& locked
                &&& snapshot < snapshots@.len()
                &&& latest_of(info_times(snapshots@), snapshots@.len()) == Some(snapshot as int)
                &&& orbs == snapshots@[snapshot as int].orbs
                &&& deps == snapshots@[snapshot as int].deps
                &&& events == snapshots@[snapshot as int].events
            },
        },
{
    if !locked {
        return Recovery::NotNeeded;
    }
    let mut times: Vec<Timestamp> = Vec::new();
    let mut i: usize = 0;
    while i < snapshots.len()
        invariant
            i <= snapshots@.len(),
            times@ == info_times(snapshots@).take(i as int),
        decreases snapshots@.len() - i,
    {
        times.push(snapshots[i].taken_at);
        i += 1;
        assert(times@ =~= info_times(snapshots@).take(i as int));
    }
    assert(times@ =~= info_times(snapshots@));
    match find_latest(&times) {
        Some(k) => Recovery::Restore {
            snapshot: k,
            orbs: snapshots[k].orbs,
            deps: snapshots[k].deps,
            events: snapshots[k].events,
        },
        None => Recovery::Unlock,
    }
}

/// Recovers a pipeline from an interrupted state.
///
/// A lock indicates an incomplete mutation. Recovery restores from the latest snapshot and
/// removes the lock.
///
/// Returns `true` if recovery was performed, `false` if no recovery was needed.
pub fn recover_pipeline(pipeline: &mut PipelineDir) -> (r: bool)
    ensures
        r == (old(pipeline)@.lock is Some),
        final(pipeline)@ == old(pipeline)@.recovered(),
{
    let mut infos: Vec<SnapshotInfo> = Vec::new();
    let mut i: usize = 0;
    while i < pipeline.snapshots.len()
        invariant
            i <= pipeline.snapshots@.len(),
            infos@.len() == i,
            forall|j: int|
                0 <= j < i ==> {
                    let s = pipeline.snapshots@[j];
                    #[trigger] infos@[j] == (SnapshotInfo {
                        taken_at: s.taken_at,
                        orbs: s.files.orbs is Some,
                        deps: s.files.deps is Some,
                        events: s.files.events is Some,
                    })
                },
            *pipeline == *old(pipeline),
        decreases pipeline.snapshots@.len() - i,
    {
        let s = &pipeline.snapshots[i];
        infos.push(
            SnapshotInfo {
                taken_at: s.taken_at,
                orbs: s.files.orbs.is_some(),
                deps: s.files.deps.is_some(),
                events: s.files.events.is_some(),
            },
        );
        i += 1;
    }
    assert(info_times(infos@) =~= pipeline@.snapshot_times());
    match plan_recovery(pipeline.is_locked(), &infos) {
        Recovery::NotNeeded => false,
        Recovery::Unlock => {
            pipeline.remove_lock();
            true
        },
        Recovery::Restore { snapshot, orbs, deps, events } => {
            let saved = pipeline.snapshots[snapshot].files.copy();
            assert(saved@ == old(pipeline)@.snapshots[snapshot as int].files);
            if orbs {
                pipeline.files.orbs = saved.orbs;
            }
            if deps {
                pipeline.files.deps = saved.deps;
            }
            if events {
                pipeline.files.events = saved.events;
            }
            pipeline.remove_lock();
            assert(pipeline@ =~= old(pipeline)@.recovered());
            true
        },
    }
}

/// Files whose names start differently have different paths in the history.
proof fn lemma_history_paths_differ(root: Seq<char>, a: Seq<char>, b: Seq<char>, stamp: Seq<char>)
    requires
        a.len() > 0,
        b.len() > 0,
        a[0] != b[0],
        a[0] != '/',
        b[0] != '/',
    ensures
        history_path(root, a, stamp) != history_path(root, b, stamp),
{
    let dir = joined_path(root, "history"@);
    let x = history_path(root, a, stamp);
    let y = history_path(root, b, stamp);
    let at: int = if dir.len() == 0 {
        0
    } else if dir.last() == '/' {
        dir.len() as int
    } else {
        dir.len() + 1int
    };
    assert(x[at] == a[0]);
    assert(y[at] == b[0]);
}

/// What archiving a file does to the history.
proof fn lemma_with_archived(history: Seq<ArchivedView>, a: ArchivedView)
    ensures
        with_archived(history, a).contains(a),
        forall|x: ArchivedView| #[trigger]
            history.contains(x) && x.file() != a.file() ==> with_archived(history, a).contains(x),
        one_file_per_path(history) ==> one_file_per_path(with_archived(history, a)),
{
    let pred = |x: ArchivedView| x.file() != a.file();
    let kept = history.filter(pred);
    let after = with_archived(history, a);
    lemma_filter(history, pred);
    assert(after[kept.len() as int] == a);
    assert forall|x: ArchivedView| #[trigger]
        history.contains(x) && x.file() != a.file() implies after.contains(x) by {
        assert(kept.contains(x));
        let i = choose|i: int| 0 <= i < kept.len() && kept[i] == x;
        assert(after[i] == x);
    }
    if one_file_per_path(history) {
        assert forall|i: int, j: int| 0 <= i < j < after.len() implies (#[trigger] after[i]).file()
            != (#[trigger] after[j]).file() by {
            assert(pred(kept[i]));
            if j < kept.len() {
                assert(in_order(history, kept[i], kept[j]));
            }
        }
    }
}

/// Whether no path stands twice in the history.
pub open spec fn one_file_per_path(history: Seq<ArchivedView>) -> bool {
    forall|i: int, j: int|
        0 <= i < j < history.len() ==> (#[trigger] history[i]).file() != (
        #[trigger] history[j]).file()
}

/// Compaction changes nothing of what is read: the orbs, those found under an ID, the active
/// edges and the events are the same as before, and no file comes or goes. It leaves no lock
/// and keeps the snapshots.
pub proof fn law_compaction_preserves(p: PipelineView, now: Timestamp, id: Seq<char>)
    ensures
        loaded::<Orb>(or_empty(p.compacted(now).files.orbs)) == loaded::<Orb>(
            or_empty(p.files.orbs),
        ),
        latest::<Orb>(or_empty(p.compacted(now).files.orbs), id) == latest::<Orb>(
            or_empty(p.files.orbs),
            id,
        ),
        p.compacted(now).files.active_deps() == p.files.active_deps(),
        p.compacted(now).files.events == p.files.events,
        p.compacted(now).files.orbs is Some <==> p.files.orbs is Some,
        p.compacted(now).files.deps is Some <==> p.files.deps is Some,
        p.compacted(now).lock is None,
        p.compacted(now).snapshots == p.snapshots,
{
    let orbs = or_empty(p.files.orbs);
    let deps = or_empty(p.files.deps);
    crate::log::law_load_of_loaded::<Orb>(orbs);
    crate::log::law_latest_of_loaded::<Orb>(orbs, id);
    crate::log::law_load_of_filtered::<DepEdge>(deps, |e: DepEdgeView| e.removed_at is None);
    let kept = loaded::<DepEdge>(deps).filter(|e: DepEdgeView| e.removed_at is None);
    crate::lists::lemma_filter_twice(
        loaded::<DepEdge>(deps),
        |e: DepEdgeView| e.removed_at is None,
    );
    assert(loaded::<DepEdge>(kept) == kept);
}

/// Compaction keeps every file that is there, as it was, in the history under its stamp. What
/// was archived under other paths stays, and no path comes to stand there twice.
pub proof fn law_compaction_archives(p: PipelineView, stamp: Seq<char>, x: ArchivedView)
    ensures
        p.files.orbs matches Some(orbs) ==> p.compacted_as(stamp).history.contains(
            ArchivedView::Orbs { path: history_path(p.root, "orbs-"@, stamp), orbs },
        ),
        p.files.deps matches Some(deps) ==> p.compacted_as(stamp).history.contains(
            ArchivedView::Deps { path: history_path(p.root, "deps-"@, stamp), deps },
        ),
        p.files.events matches Some(events) ==> p.compacted_as(stamp).history.contains(
            ArchivedView::Events { path: history_path(p.root, "events-"@, stamp), events },
        ),
        p.history.contains(x) && x.file() != history_path(p.root, "orbs-"@, stamp) && x.file()
            != history_path(p.root, "deps-"@, stamp) && x.file() != history_path(
            p.root,
            "events-"@,
            stamp,
        ) ==> p.compacted_as(stamp).history.contains(x),
        one_file_per_path(p.history) ==> one_file_per_path(p.compacted_as(stamp).history),
{
    reveal_strlit("orbs-");
    reveal_strlit("deps-");
    reveal_strlit("events-");
    assert("orbs-"@[0] == 'o' && "deps-"@[0] == 'd' && "events-"@[0] == 'e');
    lemma_history_paths_differ(p.root, "orbs-"@, "deps-"@, stamp);
    lemma_history_paths_differ(p.root, "orbs-"@, "events-"@, stamp);
    lemma_history_paths_differ(p.root, "deps-"@, "events-"@, stamp);
    if let Some(orbs) = p.files.orbs {
        lemma_with_archived(
            p.history,
            ArchivedView::Orbs { path: history_path(p.root, "orbs-"@, stamp), orbs },
        );
    }
    if let Some(deps) = p.files.deps {
        lemma_with_archived(
            p.orbs_archived(stamp),
            ArchivedView::Deps { path: history_path(p.root, "deps-"@, stamp), deps },
        );
    }
    if let Some(events) = p.files.events {
        lemma_with_archived(
            p.deps_archived(stamp),
            ArchivedView::Events { path: history_path(p.root, "events-"@, stamp), events },
        );
    }
}

/// A snapshot gives back the state at which it was taken: recovering a locked pipeline right
/// after a snapshot, later than all others, restores every file that the pipeline held,
/// whatever was written since, and leaves files alone that it did not hold.
pub proof fn law_snapshot_then_recover(
    p: PipelineView,
    path: Seq<char>,
    now: Timestamp,
    after: PipelineView,
)
    requires
        forall|j: int|
            0 <= j < p.snapshots.len() ==> earlier((#[trigger] p.snapshots[j]).taken_at, now),
        after.snapshots == p.with_snapshot(path, now).snapshots,
        after.lock is Some,
    ensures
        after.recovered().files == after.files.restored(p.files),
        p.files.orbs is Some ==> after.recovered().files.orbs == p.files.orbs,
        p.files.deps is Some ==> after.recovered().files.deps == p.files.deps,
        p.files.events is Some ==> after.recovered().files.events == p.files.events,
        after.recovered().lock is None,
{
    let times = after.snapshot_times();
    law_latest_time(times, times.len());
    let i = latest_of(times, times.len())->0;
    let last = times.len() - 1;
    assert(times[last] == now);
    if i < last {
        assert(after.snapshots[i] == p.snapshots[i]);
        assert(times[i] == p.snapshots[i].taken_at);
        assert(!earlier(times[i], times[last]));
    }
}

/// Creating a pipeline where one already is changes nothing of what it holds, and gives it the
/// files that it lacks. Doing it again changes nothing.
pub proof fn law_completed(files: FilesView)
    ensures
        or_empty(files.completed().orbs) == or_empty(files.orbs),
        or_empty(files.completed().deps) == or_empty(files.deps),
        or_empty(files.completed().events) == or_empty(files.events),
        files.completed().completed() == files.completed(),
{
}

/// Without a lock nothing is recovered. With one and no snapshot only the lock goes. Else the
/// files of the snapshot that was taken last, the first of several of the same time, take the
/// place of those that are there, and files that it lacks stay; nothing else changes.
pub proof fn law_recovered(p: PipelineView, i: int)
    ensures
        p.lock is None ==> p.recovered() == p,
        p.lock is Some && p.snapshots.len() == 0 ==> p.recovered().files == p.files,
        p.lock is Some && 0 <= i < p.snapshots.len() && (forall|j: int|
            0 <= j < i ==> earlier((#[trigger] p.snapshots[j]).taken_at, p.snapshots[i].taken_at))
            && (forall|j: int|
            i < j < p.snapshots.len() ==> !earlier(
                p.snapshots[i].taken_at,
                (#[trigger] p.snapshots[j]).taken_at,
            )) ==> {
            let saved = p.snapshots[i].files;
            let now = p.recovered().files;
            &&& saved.orbs is Some ==> now.orbs == saved.orbs
            &&& saved.orbs is None ==> now.orbs == p.files.orbs
            &&& saved.deps is Some ==> now.deps == saved.deps
            &&& saved.deps is None ==> now.deps == p.files.deps
            &&& saved.events is Some ==> now.events == saved.events
            &&& saved.events is None ==> now.events == p.files.events
        },
        p.recovered().lock is None,
        p.recovered().root == p.root,
        p.recovered().snapshots == p.snapshots,
        p.recovered().history == p.history,
{
    let times = p.snapshot_times();
    law_latest_time(times, p.snapshots.len());
    if p.lock is Some && 0 <= i < p.snapshots.len() && (forall|j: int|
        0 <= j < i ==> earlier((#[trigger] p.snapshots[j]).taken_at, p.snapshots[i].taken_at)) && (
    forall|j: int|
        i < j < p.snapshots.len() ==> !earlier(
            p.snapshots[i].taken_at,
            (#[trigger] p.snapshots[j]).taken_at,
        )) {
        let k = latest_of(times, p.snapshots.len())->0;
        assert(times[k] == p.snapshots[k].taken_at);
        assert(times[i] == p.snapshots[i].taken_at);
        if k < i {
            assert(earlier(p.snapshots[k].taken_at, p.snapshots[i].taken_at));
            assert(!earlier(times[k], times[i]));
        }
        if i < k {
            assert(earlier(times[i], times[k]));
            assert(!earlier(p.snapshots[i].taken_at, p.snapshots[k].taken_at));
        }
        assert(k == i);
    }
}

/// A compacted file has the record that was written last for every orb, tombstoned ones too, and
/// no orb twice.
pub proof fn law_compacted_orbs(p: PipelineView, stamp: Seq<char>, log: Seq<OrbView>, i: int)
    requires
        p.files.orbs == Some(log),
    ensures
        p.compacted_as(stamp).files.orbs is Some,
        0 <= i < log.len() && (forall|j: int|
            i < j < log.len() ==> (#[trigger] log[j]).id != log[i].id) ==> p.compacted_as(
            stamp,
        ).files.orbs->0.contains(log[i]),
        forall|a: int, b: int|
            0 <= a < b < p.compacted_as(stamp).files.orbs->0.len() ==> (#[trigger] p.compacted_as(
                stamp,
            ).files.orbs->0[a]).id != (#[trigger] p.compacted_as(stamp).files.orbs->0[b]).id,
{
    let kept = p.compacted_as(stamp).files.orbs->0;
    crate::log::law_loaded::<Orb>(log);
    assert forall|a: int, b: int| 0 <= a < b < kept.len() implies (#[trigger] kept[a]).id != (
    #[trigger] kept[b]).id by {
        assert(<Orb as crate::log::Entry>::key(kept[a]) != <Orb as crate::log::Entry>::key(
            kept[b],
        ));
    }
    if 0 <= i < log.len() && (forall|j: int|
        i < j < log.len() ==> (#[trigger] log[j]).id != log[i].id) {
        assert forall|j: int| i < j < log.len() implies <Orb as crate::log::Entry>::key(
            #[trigger] log[j],
        ) != <Orb as crate::log::Entry>::key(log[i]) by {
            assert(log[j].id != log[i].id);
        }
        crate::log::law_latest_is_last::<Orb>(log, i);
    }
}

/// A compacted file has the record that was written last for every edge, unless that says that
/// the edge was removed; nothing is then left of the edge.
pub proof fn law_compacted_deps(
    p: PipelineView,
    stamp: Seq<char>,
    log: Seq<DepEdgeView>,
    i: int,
    e: DepEdgeView,
)
    requires
        p.files.deps == Some(log),
        0 <= i < log.len(),
        forall|j: int|
            i < j < log.len() ==> (#[trigger] log[j]).from != log[i].from || log[j].to != log[i].to
                || log[j].edge_type != log[i].edge_type,
    ensures
        p.compacted_as(stamp).files.deps is Some,
        log[i].removed_at is None ==> p.compacted_as(stamp).files.deps->0.contains(log[i]),
        log[i].removed_at is Some && e.from == log[i].from && e.to == log[i].to && e.edge_type
            == log[i].edge_type ==> !p.compacted_as(stamp).files.deps->0.contains(e),
{
    let active = |x: DepEdgeView| x.removed_at is None;
    let all = loaded::<DepEdge>(log);
    assert forall|j: int| i < j < log.len() implies <DepEdge as crate::log::Entry>::key(
        #[trigger] log[j],
    ) != <DepEdge as crate::log::Entry>::key(log[i]) by {
        crate::dep::law_edge_identity(log[j], log[i]);
    }
    crate::log::law_latest_is_last::<DepEdge>(log, i);
    crate::log::law_loaded::<DepEdge>(log);
    crate::lists::lemma_filter(all, active);
    crate::dep::law_edge_identity(e, log[i]);
    assert(p.compacted_as(stamp).files.deps->0 == all.filter(active));
    assert(all.filter(active).contains(log[i]) <==> all.contains(log[i]) && active(log[i]));
    assert(all.filter(active).contains(e) <==> all.contains(e) && active(e));
}

/// Compaction keeps the root and the snapshots and leaves no lock.
pub proof fn law_compacted_rest(p: PipelineView, now: Timestamp)
    ensures
        p.compacted(now).root == p.root,
        p.compacted(now).snapshots == p.snapshots,
        p.compacted(now).files.events == p.files.events,
        p.compacted(now).lock is None,
        p.compacted(now) == p.compacted_as(formatted(now@.secs, now@.nanos, "%Y%m%d%H%M%S"@)),
{
}

/// Archived files are named by what they hold and the stamp, in the directory `history` of the
/// pipeline.
pub proof fn law_history_paths(root: Seq<char>, stamp: Seq<char>)
    requires
        root.len() > 0,
        root.last() != '/',
    ensures
        history_path(root, "orbs-"@, stamp) == root + "/history/orbs-"@ + stamp + ".jsonl"@,
        history_path(root, "deps-"@, stamp) == root + "/history/deps-"@ + stamp + ".jsonl"@,
        history_path(root, "events-"@, stamp) == root + "/history/events-"@ + stamp + ".jsonl"@,
{
    reveal_strlit("history");
    reveal_strlit("orbs-");
    reveal_strlit("deps-");
    reveal_strlit("events-");
    reveal_strlit("/history/orbs-");
    reveal_strlit("/history/deps-");
    reveal_strlit("/history/events-");
    let dir = joined_path(root, "history"@);
    assert("history"@[0] == 'h');
    assert("history"@[6] == 'y');
    assert(dir.last() == 'y');
    assert("orbs-"@[0] == 'o' && "deps-"@[0] == 'd' && "events-"@[0] == 'e');
    assert(history_path(root, "orbs-"@, stamp) =~= root + "/history/orbs-"@ + stamp + ".jsonl"@);
    assert(history_path(root, "deps-"@, stamp) =~= root + "/history/deps-"@ + stamp + ".jsonl"@);
    assert(history_path(root, "events-"@, stamp) =~= root + "/history/events-"@ + stamp
        + ".jsonl"@);
}

/// The directory of a pipeline is named by the type of its orb and the first eight characters of
/// the identifier behind `orb-`.
pub proof fn law_dir_name(orb: OrbView, rest: Seq<char>)
    ensures
        orb.id == "orb-"@ + rest && rest.len() > 8 ==> dir_name(orb) == orb.orb_type.name() + "-"@
            + rest.take(8),
        orb.id == "orb-"@ + rest && rest.len() <= 8 ==> dir_name(orb) == orb.orb_type.name() + "-"@
            + rest,
        orb.id.len() < 4 ==> dir_name(orb) == orb.orb_type.name() + "-"@ + orb.id,
{
    reveal_strlit("orb-");
    reveal_strlit("-");
    assert("-"@ =~= seq!['-']);
    if orb.id == "orb-"@ + rest {
        assert(orb.id.take(4) =~= seq!['o', 'r', 'b', '-']);
        assert(orb.id.skip(4) =~= rest);
    }
}

/// Pipelines lie in the directory `pipelines`.
pub proof fn law_pipeline_root(base_dir: Seq<char>, orb: OrbView)
    requires
        base_dir.len() > 0,
        base_dir.last() != '/',
        dir_name(orb)[0] != '/',
    ensures
        pipeline_root(base_dir, orb) == base_dir + "/pipelines/"@ + dir_name(orb),
{
    reveal_strlit("pipelines");
    reveal_strlit("/pipelines/");
    assert("pipelines"@[0] == 'p' && "pipelines"@[8] == 's');
    assert(joined_path(base_dir, "pipelines"@).last() == 's');
    assert(pipeline_root(base_dir, orb) =~= base_dir + "/pipelines/"@ + dir_name(orb));
}

/// The first snapshot of a phase has its name, and each further one a number from 1 on behind it.
pub proof fn law_snapshot_paths(dir: Seq<char>, phase: Seq<char>, k: nat)
    requires
        dir.len() > 0,
        dir.last() != '/',
        phase.len() > 0,
        phase[0] != '/',
    ensures
        snapshot_path(dir, phase, 0) == dir + "/"@ + phase,
        k > 0 ==> snapshot_path(dir, phase, k) == dir + "/"@ + phase + "-"@ + decimal(k),
{
    reveal_strlit("/");
    reveal_strlit("-");
    assert(snapshot_path(dir, phase, 0) =~= dir + "/"@ + phase);
    if k > 0 {
        assert((phase + seq!['-'] + decimal(k))[0] == phase[0]);
        assert(snapshot_path(dir, phase, k) =~= dir + "/"@ + phase + "-"@ + decimal(k));
    }
}

/// A snapshot gets the first path that is not taken, and none if a thousand are.
pub proof fn law_free_snapshot_path(
    dir: Seq<char>,
    phase: Seq<char>,
    taken: Seq<Seq<char>>,
    from: nat,
    k: nat,
)
    requires
        from <= k,
        forall|j: nat| from <= j < k ==> taken.contains(#[trigger] snapshot_path(dir, phase, j)),
    ensures
        k < 1000 && !taken.contains(snapshot_path(dir, phase, k)) ==> free_snapshot_path(
            dir,
            phase,
            taken,
            from,
        ) == Some(snapshot_path(dir, phase, k)),
        k >= 1000 ==> free_snapshot_path(dir, phase, taken, from) is None,
    decreases k - from,
{
    if from < k {
        assert(taken.contains(snapshot_path(dir, phase, from)));
        law_free_snapshot_path(dir, phase, taken, from + 1, k);
    }
}

/// An orb is in the first store that finds it, and in none if none does.
pub proof fn law_first_holding(stores: Seq<OrbStoreView>, id: Seq<char>, n: nat, i: int)
    requires
        n <= stores.len(),
    ensures
        first_holding(stores, id, n) == Some(i) <==> 0 <= i < n && stores[i].find(id) is Some
            && forall|j: int| 0 <= j < i ==> (#[trigger] stores[j]).find(id) is None,
        first_holding(stores, id, n) is None <==> forall|j: int|
            0 <= j < n ==> (#[trigger] stores[j]).find(id) is None,
    decreases n,
{
    if n > 0 {
        law_first_holding(stores, id, (n - 1) as nat, i);
        if first_holding(stores, id, (n - 1) as nat) is Some {
            let f = first_holding(stores, id, (n - 1) as nat)->0;
            law_first_holding(stores, id, (n - 1) as nat, f);
        }
    }
}

/// A snapshot holds the files as they are, behind all others, and changes nothing else.
pub proof fn law_snapshot(p: PipelineView, path: Seq<char>, now: Timestamp)
    ensures
        p.with_snapshot(path, now).snapshots.len() == p.snapshots.len() + 1,
        p.with_snapshot(path, now).snapshots.drop_last() == p.snapshots,
        p.with_snapshot(path, now).snapshots.last().path == path,
        p.with_snapshot(path, now).snapshots.last().taken_at == now,
        p.with_snapshot(path, now).snapshots.last().files == p.files,
        p.with_snapshot(path, now).files == p.files,
        p.with_snapshot(path, now).history == p.history,
        p.with_snapshot(path, now).lock == p.lock,
        p.with_snapshot(path, now).root == p.root,
{
    assert(p.with_snapshot(path, now).snapshots.drop_last() =~= p.snapshots);
}

/// A new pipeline has empty files, no snapshot, no history and no lock.
pub proof fn law_empty_pipeline(root: Seq<char>)
    ensures
        ({
            let p = empty_pipeline(root);
            &&& p.root == root && p.lock is None
            &&& p.snapshots.len() == 0 && p.history.len() == 0
            &&& p.files.orbs is Some && p.files.orbs->0.len() == 0
            &&& p.files.deps is Some && p.files.deps->0.len() == 0
            &&& p.files.events is Some && p.files.events->0.len() == 0
        }),
{
}

} // verus!

//! The orb: a work item with its lifecycle.

use vstd::prelude::*;

use crate::id::{content_hash, content_hash_of, first_free_id, OrbId};
use crate::review::{ReviewReport, ReviewReportView};
use crate::task::{clamp_priority, clamped, TaskStatus};
use crate::text::{clone_opt_text, clone_texts, opt_text, str_eq, texts};
use crate::time::{epoch_nanos, utc_now, Timestamp};
use crate::uuid::Uuid;

verus! {

/// Maximum number of times an orb can be revised before its lifecycle terminates at `Done`.
pub const MAX_REVISIONS: u8 = 3;

/// Type classification for an orb.
#[derive(Debug, Eq)]
pub enum OrbType {
    Epic,
    Feature,
    Task,
    Bug,
    Chore,
    Docs,
    Custom(String),
}

/// What an [`OrbType`] holds.
pub enum OrbTypeView {
    Epic,
    Feature,
    Task,
    Bug,
    Chore,
    Docs,
    Custom(Seq<char>),
}

impl View for OrbType {
    type V = OrbTypeView;

    open spec fn view(&self) -> OrbTypeView {
        match self {
            OrbType::Epic => OrbTypeView::Epic,
            OrbType::Feature => OrbTypeView::Feature,
            OrbType::Task => OrbTypeView::Task,
            OrbType::Bug => OrbTypeView::Bug,
            OrbType::Chore => OrbTypeView::Chore,
            OrbType::Docs => OrbTypeView::Docs,
            OrbType::Custom(s) => OrbTypeView::Custom(s@),
        }
    }
}

impl PartialEq for OrbType {
    fn eq(&self, other: &OrbType) -> (r: bool) {
        match (self, other) {
            (OrbType::Epic, OrbType::Epic) => true,
            (OrbType::Feature, OrbType::Feature) => true,
            (OrbType::Task, OrbType::Task) => true,
            (OrbType::Bug, OrbType::Bug) => true,
            (OrbType::Chore, OrbType::Chore) => true,
            (OrbType::Docs, OrbType::Docs) => true,
            (OrbType::Custom(a), OrbType::Custom(b)) => str_eq(a.as_str(), b.as_str()),
            _ => false,
        }
    }
}

impl vstd::std_specs::cmp::PartialEqSpecImpl for OrbType {
    open spec fn obeys_eq_spec() -> bool {
        true
    }

    open spec fn eq_spec(&self, other: &OrbType) -> bool {
        self@ == other@
    }
}

impl Clone for OrbType {
    fn clone(&self) -> (r: OrbType)
        ensures
            r@ == self@,
    {
        match self {
            OrbType::Epic => OrbType::Epic,
            OrbType::Feature => OrbType::Feature,
            OrbType::Task => OrbType::Task,
            OrbType::Bug => OrbType::Bug,
            OrbType::Chore => OrbType::Chore,
            OrbType::Docs => OrbType::Docs,
            OrbType::Custom(s) => OrbType::Custom(s.clone()),
        }
    }
}

impl OrbTypeView {
    /// Whether orbs of this type go through phases.
    pub open spec fn uses_phase(self) -> bool {
        self is Epic || self is Feature
    }

    /// The name of the type.
    pub open spec fn name(self) -> Seq<char> {
        match self {
            OrbTypeView::Epic => "epic"@,
            OrbTypeView::Feature => "feature"@,
            OrbTypeView::Task => "task"@,
            OrbTypeView::Bug => "bug"@,
            OrbTypeView::Chore => "chore"@,
            OrbTypeView::Docs => "docs"@,
            OrbTypeView::Custom(s) => s,
        }
    }
}

impl OrbType {
    /// Returns true if this type uses the phase lifecycle (epic/feature).
    pub fn uses_phase(&self) -> (r: bool)
        ensures
            r == self@.uses_phase(),
    {
        matches!(self, OrbType::Epic | OrbType::Feature)
    }

    /// Returns the name of the type, as it goes into the content hash.
    pub fn as_hash_str(&self) -> (s: &str)
        ensures
            s@ == self@.name(),
    {
        match self {
            OrbType::Epic => "epic",
            OrbType::Feature => "feature",
            OrbType::Task => "task",
            OrbType::Bug => "bug",
            OrbType::Chore => "chore",
            OrbType::Docs => "docs",
            OrbType::Custom(s) => s.as_str(),
        }
    }
}

/// Status lifecycle for tasks, bugs, chores, docs.
#[derive(Debug, Clone, Copy, PartialEq, Eq, Structural)]
pub enum OrbStatus {
    Draft,
    Pending,
    Active,
    Review,
    Done,
    Failed,
    Cancelled,
    Deferred,
    Tombstone,
}

/// Phase lifecycle for epics and features.
#[derive(Debug, Clone, Copy, PartialEq, Eq, Structural)]
pub enum OrbPhase {
    Draft,
    Pending,
    Speccing,
    Decomposing,
    Refining,
    Review,
    Waiting,
    Executing,
    Reevaluating,
    Done,
    Failed,
    Cancelled,
    Deferred,
    Tombstone,
}

/// Difficulty estimate for an orb.
#[derive(Debug, Clone, Copy, PartialEq, Eq, Structural)]
pub enum Difficulty {
    Trivial,
    Easy,
    Medium,
    Hard,
    Unknown,
}

/// The name of a priority.
pub open spec fn priority_label(priority: u8) -> Seq<char> {
    if priority == 1 {
        "Critical"@
    } else if priority == 2 {
        "High"@
    } else if priority == 3 {
        "Medium"@
    } else if priority == 4 {
        "Low"@
    } else if priority == 5 {
        "Backlog"@
    } else {
        "Unknown"@
    }
}

/// Priority display names.
pub fn priority_name(priority: u8) -> (s: &'static str)
    ensures
        s@ == priority_label(priority),
{
    match priority {
        1 => "Critical",
        2 => "High",
        3 => "Medium",
        4 => "Low",
        5 => "Backlog",
        _ => "Unknown",
    }
}

/// Execution metadata for a completed orb.
#[derive(Debug)]
pub struct ExecutionMeta {
    pub dispatched_at: Option<Timestamp>,
    pub completed_at: Option<Timestamp>,
    pub worker_id: Option<String>,
    pub worker_model: Option<String>,
    pub model_latency_ms: Option<u64>,
    pub tool_latency_ms: Option<u64>,
    pub total_latency_ms: Option<u64>,
    pub prompt_tokens: Option<u32>,
    pub completion_tokens: Option<u32>,
    pub total_tokens: Option<u32>,
    pub retries: u32,
}

/// What an [`ExecutionMeta`] holds.
pub struct ExecutionMetaView {
    pub dispatched_at: Option<Timestamp>,
    pub completed_at: Option<Timestamp>,
    pub worker_id: Option<Seq<char>>,
    pub worker_model: Option<Seq<char>>,
    pub model_latency_ms: Option<u64>,
    pub tool_latency_ms: Option<u64>,
    pub total_latency_ms: Option<u64>,
    pub prompt_tokens: Option<u32>,
    pub completion_tokens: Option<u32>,
    pub total_tokens: Option<u32>,
    pub retries: u32,
}

impl View for ExecutionMeta {
    type V = ExecutionMetaView;

    open spec fn view(&self) -> ExecutionMetaView {
        ExecutionMetaView {
            dispatched_at: self.dispatched_at,
            completed_at: self.completed_at,
            worker_id: opt_text(self.worker_id),
            worker_model: opt_text(self.worker_model),
            model_latency_ms: self.model_latency_ms,
            tool_latency_ms: self.tool_latency_ms,
            total_latency_ms: self.total_latency_ms,
            prompt_tokens: self.prompt_tokens,
            completion_tokens: self.completion_tokens,
            total_tokens: self.total_tokens,
            retries: self.retries,
        }
    }
}

impl Clone for ExecutionMeta {
    fn clone(&self) -> (r: ExecutionMeta)
        ensures
            r@ == self@,
    {
        ExecutionMeta {
            dispatched_at: self.dispatched_at,
            completed_at: self.completed_at,
            worker_id: clone_opt_text(&self.worker_id),
            worker_model: clone_opt_text(&self.worker_model),
            model_latency_ms: self.model_latency_ms,
            tool_latency_ms: self.tool_latency_ms,
            total_latency_ms: self.total_latency_ms,
            prompt_tokens: self.prompt_tokens,
            completion_tokens: self.completion_tokens,
            total_tokens: self.total_tokens,
            retries: self.retries,
        }
    }
}

impl Default for ExecutionMeta {
    fn default() -> (r: ExecutionMeta)
        ensures
            r@ == (ExecutionMetaView {
            dispatched_at: None,
            completed_at: None,
            worker_id: None,
            worker_model: None,
            model_latency_ms: None,
            tool_latency_ms: None,
            total_latency_ms: None,
            prompt_tokens: None,
            completion_tokens: None,
            total_tokens: None,
            retries: 0,
            }),
    {
        ExecutionMeta {
            dispatched_at: None,
            completed_at: None,
            worker_id: None,
            worker_model: None,
            model_latency_ms: None,
            tool_latency_ms: None,
            total_latency_ms: None,
            prompt_tokens: None,
            completion_tokens: None,
            total_tokens: None,
            retries: 0,
        }
    }
}

/// A confidence between 0 and 1, as the bits of an IEEE 754 single.
#[derive(Debug, Clone, Copy, PartialEq, Eq, Structural)]
pub struct Confidence {
    pub bits: u32,
}

/// A work item.
#[derive(Debug)]
pub struct Orb {
    /// Content-addressed ID (e.g. "orb-k4f" or "orb-k4f.1").
    pub id: OrbId,
    /// Content hash for change detection (excludes timestamps and metadata).
    pub content_hash: Option<String>,
    pub title: String,
    pub description: String,
    pub design: Option<String>,
    pub acceptance_criteria: Option<String>,
    pub scope: Vec<String>,
    pub labels: Vec<String>,
    pub orb_type: OrbType,
    /// Status lifecycle (tasks, bugs, chores, docs).
    pub status: Option<OrbStatus>,
    /// Phase lifecycle (epics, features).
    pub phase: Option<OrbPhase>,
    /// Priority 1 (Critical) to 5 (Backlog).
    pub priority: u8,
    pub estimated_minutes: Option<u32>,
    pub difficulty: Option<Difficulty>,
    pub parent_id: Option<OrbId>,
    pub root_id: Option<OrbId>,
    pub created_at: Timestamp,
    pub updated_at: Timestamp,
    pub closed_at: Option<Timestamp>,
    pub deleted_at: Option<Timestamp>,
    pub delete_reason: Option<String>,
    pub execution: Option<ExecutionMeta>,
    /// Final response/result text.
    pub result: Option<String>,
    /// Worker-reported confidence in the result, between 0 and 1.
    pub confidence: Option<Confidence>,
    /// Report of a second opinion on the result, if there is one.
    pub review_report: Option<ReviewReport>,
    /// Free-form critique attached to the orb with a `Revise` verdict.
    pub review_critique: Option<String>,
    /// Number of revisions this orb has gone through, at most [`MAX_REVISIONS`].
    pub revision_count: u8,
    pub requires_approval: bool,
    pub external_ref: Option<String>,
    pub preferred_model: Option<String>,
    /// UUID-based ID of records that were made from tasks.
    pub legacy_id: Option<Uuid>,
    /// Model of the worker, for records without `execution`.
    pub worker_model: Option<String>,
}

/// What an [`Orb`] holds.
#[verifier::ext_equal]
pub struct OrbView {
    pub id: Seq<char>,
    pub content_hash: Option<Seq<char>>,
    pub title: Seq<char>,
    pub description: Seq<char>,
    pub design: Option<Seq<char>>,
    pub acceptance_criteria: Option<Seq<char>>,
    pub scope: Seq<Seq<char>>,
    pub labels: Seq<Seq<char>>,
    pub orb_type: OrbTypeView,
    pub status: Option<OrbStatus>,
    pub phase: Option<OrbPhase>,
    pub priority: u8,
    pub estimated_minutes: Option<u32>,
    pub difficulty: Option<Difficulty>,
    pub parent_id: Option<Seq<char>>,
    pub root_id: Option<Seq<char>>,
    pub created_at: Timestamp,
    pub updated_at: Timestamp,
    pub closed_at: Option<Timestamp>,
    pub deleted_at: Option<Timestamp>,
    pub delete_reason: Option<Seq<char>>,
    pub execution: Option<ExecutionMetaView>,
    pub result: Option<Seq<char>>,
    pub confidence: Option<Confidence>,
    pub review_report: Option<ReviewReportView>,
    pub review_critique: Option<Seq<char>>,
    pub revision_count: u8,
    pub requires_approval: bool,
    pub external_ref: Option<Seq<char>>,
    pub preferred_model: Option<Seq<char>>,
    pub legacy_id: Option<Uuid>,
    pub worker_model: Option<Seq<char>>,
}

/// The text that an optional identifier holds.
pub open spec fn opt_id(o: Option<OrbId>) -> Option<Seq<char>> {
    match o {
        Some(id) => Some(id@),
        None => None,
    }
}

/// A copy of an optional identifier.
pub fn clone_opt_id(o: &Option<OrbId>) -> (r: Option<OrbId>)
    ensures
        opt_id(r) == opt_id(*o),
{
    match o {
        Some(id) => Some(id.clone()),
        None => None,
    }
}

/// Whether an optional identifier is the given one.
pub fn opt_id_is(o: &Option<OrbId>, id: &OrbId) -> (r: bool)
    ensures
        r == (opt_id(*o) == Some(id@)),
{
    match o {
        Some(x) => *x == *id,
        None => false,
    }
}

impl View for Orb {
    type V = OrbView;

    open spec fn view(&self) -> OrbView {
        OrbView {
            id: self.id@,
            content_hash: opt_text(self.content_hash),
            title: self.title@,
            description: self.description@,
            design: opt_text(self.design),
            acceptance_criteria: opt_text(self.acceptance_criteria),
            scope: texts(self.scope@),
            labels: texts(self.labels@),
            orb_type: self.orb_type@,
            status: self.status,
            phase: self.phase,
            priority: self.priority,
            estimated_minutes: self.estimated_minutes,
            difficulty: self.difficulty,
            parent_id: opt_id(self.parent_id),
            root_id: opt_id(self.root_id),
            created_at: self.created_at,
            updated_at: self.updated_at,
            closed_at: self.closed_at,
            deleted_at: self.deleted_at,
            delete_reason: opt_text(self.delete_reason),
            execution: match self.execution {
                Some(x) => Some(x@),
                None => None,
            },
            result: opt_text(self.result),
            confidence: self.confidence,
            review_report: match self.review_report {
                Some(x) => Some(x@),
                None => None,
            },
            review_critique: opt_text(self.review_critique),
            revision_count: self.revision_count,
            requires_approval: self.requires_approval,
            external_ref: opt_text(self.external_ref),
            preferred_model: opt_text(self.preferred_model),
            legacy_id: self.legacy_id,
            worker_model: opt_text(self.worker_model),
        }
    }
}

impl Clone for Orb {
    fn clone(&self) -> (r: Orb)
        ensures
            r@ == self@,
    {
        Orb {
            id: self.id.clone(),
            content_hash: clone_opt_text(&self.content_hash),
            title: self.title.clone(),
            description: self.description.clone(),
            design: clone_opt_text(&self.design),
            acceptance_criteria: clone_opt_text(&self.acceptance_criteria),
            scope: clone_texts(&self.scope),
            labels: clone_texts(&self.labels),
            orb_type: self.orb_type.clone(),
            status: self.status,
            phase: self.phase,
            priority: self.priority,
            estimated_minutes: self.estimated_minutes,
            difficulty: self.difficulty,
            parent_id: clone_opt_id(&self.parent_id),
            root_id: clone_opt_id(&self.root_id),
            created_at: self.created_at,
            updated_at: self.updated_at,
            closed_at: self.closed_at,
            deleted_at: self.deleted_at,
            delete_reason: clone_opt_text(&self.delete_reason),
            execution: match &self.execution {
                Some(x) => Some(x.clone()),
                None => None,
            },
            result: clone_opt_text(&self.result),
            confidence: self.confidence,
            review_report: match &self.review_report {
                Some(x) => Some(x.clone()),
                None => None,
            },
            review_critique: clone_opt_text(&self.review_critique),
            revision_count: self.revision_count,
            requires_approval: self.requires_approval,
            external_ref: clone_opt_text(&self.external_ref),
            preferred_model: clone_opt_text(&self.preferred_model),
            legacy_id: self.legacy_id,
            worker_model: clone_opt_text(&self.worker_model),
        }
    }
}

/// An orb as it is when it is made.
pub open spec fn fresh_orb(
    id: Seq<char>,
    title: Seq<char>,
    description: Seq<char>,
    now: Timestamp,
) -> OrbView {
    OrbView {
        id,
        content_hash: None,
        title,
        description,
        design: None,
        acceptance_criteria: None,
        scope: Seq::empty(),
        labels: Seq::empty(),
        orb_type: OrbTypeView::Task,
        status: Some(OrbStatus::Pending),
        phase: None,
        priority: 3,
        estimated_minutes: None,
        difficulty: None,
        parent_id: None,
        root_id: None,
        created_at: now,
        updated_at: now,
        closed_at: None,
        deleted_at: None,
        delete_reason: None,
        execution: None,
        result: None,
        confidence: None,
        review_report: None,
        review_critique: None,
        revision_count: 0,
        requires_approval: false,
        external_ref: None,
        preferred_model: None,
        legacy_id: None,
        worker_model: None,
    }
}

/// The identifier of an orb that is made at `now`.
pub open spec fn fresh_orb_id(
    title: Seq<char>,
    description: Seq<char>,
    now: Timestamp,
) -> Seq<char> {
    first_free_id(
        title,
        description,
        "system"@,
        epoch_nanos(now) as u128,
        Seq::<Seq<char>>::empty(),
        0,
    )
}

impl OrbView {
    /// The orb with another type, at the start of the lifecycle of that type.
    pub open spec fn with_type(self, orb_type: OrbTypeView) -> OrbView {
        if orb_type.uses_phase() {
            OrbView { orb_type, status: None, phase: Some(OrbPhase::Pending), ..self }
        } else {
            OrbView { orb_type, status: Some(OrbStatus::Pending), phase: None, ..self }
        }
    }

    /// The hash of the orb's content.
    pub open spec fn hash(self) -> Seq<char> {
        content_hash_of(
            self.title,
            self.description,
            self.design,
            self.acceptance_criteria,
            self.orb_type.name(),
            self.scope,
            self.priority,
        )
    }

    /// The status of the orb seen as a task.
    pub open spec fn effective_status(self) -> TaskStatus {
        match (self.status, self.phase) {
            (Some(s), _) => match s {
                OrbStatus::Draft | OrbStatus::Pending | OrbStatus::Deferred => TaskStatus::Pending,
                OrbStatus::Active => TaskStatus::Active,
                OrbStatus::Review => TaskStatus::Review,
                OrbStatus::Done => TaskStatus::Done,
                OrbStatus::Failed => TaskStatus::Failed,
                OrbStatus::Cancelled | OrbStatus::Tombstone => TaskStatus::Cancelled,
            },
            (None, Some(p)) => match p {
                OrbPhase::Draft | OrbPhase::Pending | OrbPhase::Deferred | OrbPhase::Waiting =>
                    TaskStatus::Pending,
                OrbPhase::Speccing
                | OrbPhase::Decomposing
                | OrbPhase::Refining
                | OrbPhase::Executing
                | OrbPhase::Reevaluating => TaskStatus::Active,
                OrbPhase::Review => TaskStatus::Review,
                OrbPhase::Done => TaskStatus::Done,
                OrbPhase::Failed => TaskStatus::Failed,
                OrbPhase::Cancelled | OrbPhase::Tombstone => TaskStatus::Cancelled,
            },
            (None, None) => TaskStatus::Pending,
        }
    }

    /// Whether the orb is soft-deleted.
    pub open spec fn is_tombstoned(self) -> bool {
        ||| self.deleted_at is Some
        ||| self.status == Some(OrbStatus::Tombstone)
        ||| self.phase == Some(OrbPhase::Tombstone)
    }

    /// Whether the orb is in a state from which it can be deferred.
    pub open spec fn can_defer(self) -> bool {
        match (self.status, self.phase) {
            (Some(s), _) => s is Pending || s is Draft,
            (None, Some(p)) => p is Pending || p is Waiting || p is Draft,
            (None, None) => false,
        }
    }

    /// The orb deferred at `now`.
    pub open spec fn deferred(self, now: Timestamp) -> OrbView {
        if self.status is Some {
            OrbView { status: Some(OrbStatus::Deferred), updated_at: now, ..self }
        } else {
            OrbView { phase: Some(OrbPhase::Deferred), updated_at: now, ..self }
        }
    }

    /// The orb taken back from deferral at `now`. Phase orbs with a parent wait, all others
    /// become pending.
    pub open spec fn undeferred(self, now: Timestamp) -> OrbView {
        if self.status == Some(OrbStatus::Deferred) {
            OrbView { status: Some(OrbStatus::Pending), updated_at: now, ..self }
        } else if self.phase == Some(OrbPhase::Deferred) {
            let phase = if self.parent_id is Some {
                OrbPhase::Waiting
            } else {
                OrbPhase::Pending
            };
            OrbView { phase: Some(phase), updated_at: now, ..self }
        } else {
            OrbView { updated_at: now, ..self }
        }
    }

    /// The orb soft-deleted at `now`.
    pub open spec fn tombstoned(self, reason: Option<Seq<char>>, now: Timestamp) -> OrbView {
        let gone = OrbView {
            deleted_at: Some(now),
            delete_reason: reason,
            updated_at: now,
            ..self
        };
        if self.status is Some {
            OrbView { status: Some(OrbStatus::Tombstone), ..gone }
        } else {
            OrbView { phase: Some(OrbPhase::Tombstone), ..gone }
        }
    }

    /// The orb with another status, entered at `now`. An orb that is done, failed or
    /// cancelled is closed.
    pub open spec fn moved_to_status(self, status: OrbStatus, now: Timestamp) -> OrbView {
        let closed_at = if status is Done || status is Failed || status is Cancelled {
            Some(now)
        } else {
            self.closed_at
        };
        OrbView { status: Some(status), updated_at: now, closed_at, ..self }
    }

    /// The orb in another phase, entered at `now`. An orb that is done, failed or cancelled
    /// is closed.
    pub open spec fn moved_to_phase(self, phase: OrbPhase, now: Timestamp) -> OrbView {
        let closed_at = if phase is Done || phase is Failed || phase is Cancelled {
            Some(now)
        } else {
            self.closed_at
        };
        OrbView { phase: Some(phase), updated_at: now, closed_at, ..self }
    }

    /// The orb sent back for a revision at `now`.
    pub open spec fn revised(self, scope: ReviseScope, now: Timestamp) -> OrbView {
        let back = if self.orb_type.uses_phase() {
            self.moved_to_phase(revision_phase(scope), now)
        } else {
            self.moved_to_status(OrbStatus::Active, now)
        };
        OrbView { revision_count: (self.revision_count + 1) as u8, closed_at: None, ..back }
    }

    /// Whether the lifecycle fields fit the type: a phase for epics and features, a status
    /// for all others, and never both.
    pub open spec fn lifecycle_fits(self) -> bool {
        if self.orb_type.uses_phase() {
            self.phase is Some && self.status is None
        } else {
            self.status is Some && self.phase is None
        }
    }
}

/// The error of a status transition that is not allowed.
pub open spec fn status_error(from: Option<OrbStatus>, to: OrbStatus) -> TransitionError {
    match from {
        Some(from) => TransitionError::InvalidStatus { from, to },
        None => TransitionError::StatusNotSet { to },
    }
}

/// The error of a phase transition that is not allowed.
pub open spec fn phase_error(from: Option<OrbPhase>, to: OrbPhase) -> TransitionError {
    match from {
        Some(from) => TransitionError::InvalidPhase { from, to },
        None => TransitionError::PhaseNotSet { to },
    }
}

/// The phase in which a phase orb re-enters the pipeline for a revision.
pub open spec fn revision_phase(scope: ReviseScope) -> OrbPhase {
    match scope {
        ReviseScope::Execution => OrbPhase::Executing,
        ReviseScope::Decomposition => OrbPhase::Refining,
    }
}

/// What sending an orb back for a revision comes to: nothing, or the error that stops it.
pub open spec fn revision_outcome(orb: OrbView, scope: ReviseScope) -> Result<
    (),
    TransitionError,
> {
    if orb.revision_count >= MAX_REVISIONS {
        Err(TransitionError::RevisionCapExceeded { count: orb.revision_count, cap: MAX_REVISIONS })
    } else if orb.orb_type.uses_phase() {
        if orb.phase == Some(OrbPhase::Done) {
            Ok(())
        } else {
            Err(phase_error(orb.phase, revision_phase(scope)))
        }
    } else if orb.status == Some(OrbStatus::Done) {
        Ok(())
    } else {
        Err(status_error(orb.status, OrbStatus::Active))
    }
}

impl Orb {
    /// Creates a new pending orb of type Task.
    pub fn new(title: &str, description: &str) -> (orb: Orb)
        ensures
            orb@ == fresh_orb(
                fresh_orb_id(title@, description@, orb.created_at),
                title@,
                description@,
                orb.created_at,
            ),
    {
        Orb::new_at(title, description, utc_now())
    }

    /// Creates a pending orb of type Task, as made at `now`.
    pub fn new_at(title: &str, description: &str, now: Timestamp) -> (orb: Orb)
        ensures
            orb@ == fresh_orb(fresh_orb_id(title@, description@, now), title@, description@, now),
    {
        let taken: Vec<String> = Vec::new();
        let nanos: u128 = now.nanos_since_epoch();
        let id = OrbId::generate(title, description, "system", nanos, &taken);
        proof {
            assert(texts(taken@) =~= Seq::<Seq<char>>::empty());
        }
        let orb = Orb {
            id,
            content_hash: None,
            title: title.to_owned(),
            description: description.to_owned(),
            design: None,
            acceptance_criteria: None,
            scope: Vec::new(),
            labels: Vec::new(),
            orb_type: OrbType::Task,
            status: Some(OrbStatus::Pending),
            phase: None,
            priority: 3,
            estimated_minutes: None,
            difficulty: None,
            parent_id: None,
            root_id: None,
            created_at: now,
            updated_at: now,
            closed_at: None,
            deleted_at: None,
            delete_reason: None,
            execution: None,
            result: None,
            confidence: None,
            review_report: None,
            review_critique: None,
            revision_count: 0,
            requires_approval: false,
            external_ref: None,
            preferred_model: None,
            legacy_id: None,
            worker_model: None,
        };
        proof {
            assert(orb@ =~= fresh_orb(id@, title@, description@, now));
        }
        orb
    }

    /// Gives the orb a type and puts it at the start of the lifecycle of that type.
    #[must_use]
    pub fn with_type(self, orb_type: OrbType) -> (orb: Orb)
        ensures
            orb@ == self@.with_type(orb_type@),
    {
        let mut orb = self;
        if orb_type.uses_phase() {
            orb.status = None;
            orb.phase = Some(OrbPhase::Pending);
        } else {
            orb.status = Some(OrbStatus::Pending);
            orb.phase = None;
        }
        orb.orb_type = orb_type;
        orb
    }

    /// Sets the priority (clamped to 1-5).
    #[must_use]
    pub fn with_priority(self, priority: u8) -> (orb: Orb)
        ensures
            orb@ == (OrbView { priority: clamped(priority), ..self@ }),
    {
        let mut orb = self;
        orb.priority = clamp_priority(priority);
        orb
    }

    /// Sets the parent ID and root ID. Without a root the parent is the root.
    #[must_use]
    pub fn with_parent(self, parent_id: OrbId, root_id: Option<OrbId>) -> (orb: Orb)
        ensures
            orb@ == (OrbView {
                parent_id: Some(parent_id@),
                root_id: if root_id is Some {
                    opt_id(root_id)
                } else {
                    Some(parent_id@)
                },
                ..self@
            }),
    {
        let mut orb = self;
        orb.root_id = match root_id {
            Some(r) => Some(r),
            None => Some(parent_id.clone()),
        };
        orb.parent_id = Some(parent_id);
        orb
    }

    /// Computes and sets the content hash.
    pub fn update_content_hash(&mut self)
        ensures
            final(self)@ == (OrbView { content_hash: Some(old(self)@.hash()), ..old(self)@ }),
    {
        let design = match &self.design {
            Some(s) => Some(s.as_str()),
            None => None,
        };
        let criteria = match &self.acceptance_criteria {
            Some(s) => Some(s.as_str()),
            None => None,
        };
        let hash = content_hash(
            self.title.as_str(),
            self.description.as_str(),
            design,
            criteria,
            self.orb_type.as_hash_str(),
            self.scope.as_slice(),
            self.priority,
        );
        self.content_hash = Some(hash);
    }

    /// Returns the effective status, mapping from either status or phase.
    pub fn effective_status(&self) -> (r: TaskStatus)
        ensures
            r == self@.effective_status(),
    {
        if let Some(status) = self.status {
            match status {
                OrbStatus::Draft | OrbStatus::Pending | OrbStatus::Deferred => TaskStatus::Pending,
                OrbStatus::Active => TaskStatus::Active,
                OrbStatus::Review => TaskStatus::Review,
                OrbStatus::Done => TaskStatus::Done,
                OrbStatus::Failed => TaskStatus::Failed,
                OrbStatus::Cancelled | OrbStatus::Tombstone => TaskStatus::Cancelled,
            }
        } else if let Some(phase) = self.phase {
            match phase {
                OrbPhase::Draft | OrbPhase::Pending | OrbPhase::Deferred | OrbPhase::Waiting => {
                    TaskStatus::Pending
                },
                OrbPhase::Speccing
                | OrbPhase::Decomposing
                | OrbPhase::Refining
                | OrbPhase::Executing
                | OrbPhase::Reevaluating => TaskStatus::Active,
                OrbPhase::Review => TaskStatus::Review,
                OrbPhase::Done => TaskStatus::Done,
                OrbPhase::Failed => TaskStatus::Failed,
                OrbPhase::Cancelled | OrbPhase::Tombstone => TaskStatus::Cancelled,
            }
        } else {
            TaskStatus::Pending
        }
    }

    /// Returns true if this orb is tombstoned (soft-deleted).
    pub fn is_tombstoned(&self) -> (r: bool)
        ensures
            r == self@.is_tombstoned(),
    {
        self.deleted_at.is_some() || matches!(self.status, Some(OrbStatus::Tombstone)) || matches!(
            self.phase,
            Some(OrbPhase::Tombstone)
        )
    }

    /// Returns true if the orb can be deferred from its current state.
    pub fn can_defer(&self) -> (r: bool)
        ensures
            r == self@.can_defer(),
    {
        if let Some(status) = self.status {
            matches!(status, OrbStatus::Pending | OrbStatus::Draft)
        } else if let Some(phase) = self.phase {
            matches!(phase, OrbPhase::Pending | OrbPhase::Waiting | OrbPhase::Draft)
        } else {
            false
        }
    }

    /// Defers this orb. Returns false if deferral is not allowed.
    pub fn defer(&mut self) -> (r: bool)
        ensures
            r == old(self)@.can_defer(),
            r ==> final(self)@ == old(self)@.deferred(final(self).updated_at),
            !r ==> final(self)@ == old(self)@,
    {
        self.defer_at(utc_now())
    }

    /// Defers this orb at `now`. Returns false if deferral is not allowed.
    pub fn defer_at(&mut self, now: Timestamp) -> (r: bool)
        ensures
            r == old(self)@.can_defer(),
            r ==> final(self)@ == old(self)@.deferred(now),
            !r ==> final(self)@ == old(self)@,
    {
        if !self.can_defer() {
            return false;
        }
        if self.status.is_some() {
            self.status = Some(OrbStatus::Deferred);
        } else {
            self.phase = Some(OrbPhase::Deferred);
        }
        self.updated_at = now;
        true
    }

    /// Undefers this orb, restoring to the appropriate default state.
    pub fn undefer(&mut self)
        ensures
            final(self)@ == old(self)@.undeferred(final(self).updated_at),
    {
        self.undefer_at(utc_now());
    }

    /// Undefers this orb at `now`.
    pub fn undefer_at(&mut self, now: Timestamp)
        ensures
            final(self)@ == old(self)@.undeferred(now),
    {
        if matches!(self.status, Some(OrbStatus::Deferred)) {
            self.status = Some(OrbStatus::Pending);
        } else if matches!(self.phase, Some(OrbPhase::Deferred)) {
            if self.parent_id.is_some() {
                self.phase = Some(OrbPhase::Waiting);
            } else {
                self.phase = Some(OrbPhase::Pending);
            }
        }
        self.updated_at = now;
    }

    /// Soft-deletes (tombstones) this orb.
    pub fn tombstone(&mut self, reason: Option<String>)
        ensures
            final(self)@ == old(self)@.tombstoned(opt_text(reason), final(self).updated_at),
    {
        self.tombstone_at(reason, utc_now());
    }

    /// Soft-deletes (tombstones) this orb at `now`.
    pub fn tombstone_at(&mut self, reason: Option<String>, now: Timestamp)
        ensures
            final(self)@ == old(self)@.tombstoned(opt_text(reason), now),
    {
        self.deleted_at = Some(now);
        self.delete_reason = reason;
        if self.status.is_some() {
            self.status = Some(OrbStatus::Tombstone);
        } else {
            self.phase = Some(OrbPhase::Tombstone);
        }
        self.updated_at = now;
    }

    /// Transitions status (for task/bug/chore/docs types).
    ///
    /// # Errors
    ///
    /// `TransitionError::InvalidStatus` if the move is not allowed;
    /// `TransitionError::StatusNotSet` if the orb has no current status and `new_status` is
    /// neither `Draft` nor `Tombstone`. The orb is then left as it was.
    pub fn set_status(&mut self, new_status: OrbStatus) -> (r: Result<(), TransitionError>)
        ensures
            status_move_allowed(old(self).status, new_status) ==> r == Ok::<(), TransitionError>(())
                && final(self)@ == old(self)@.moved_to_status(new_status, final(self).updated_at),
            !status_move_allowed(old(self).status, new_status) ==> r == Err::<(), TransitionError>(
                status_error(old(self).status, new_status),
            ) && final(self)@ == old(self)@,
    {
        self.set_status_at(new_status, utc_now())
    }

    /// Transitions status at `now`, as [`Orb::set_status`] does.
    ///
    /// # Errors
    ///
    /// As for [`Orb::set_status`].
    pub fn set_status_at(&mut self, new_status: OrbStatus, now: Timestamp) -> (r: Result<
        (),
        TransitionError,
    >)
        ensures
            status_move_allowed(old(self).status, new_status) ==> r == Ok::<(), TransitionError>(())
                && final(self)@ == old(self)@.moved_to_status(new_status, now),
            !status_move_allowed(old(self).status, new_status) ==> r == Err::<(), TransitionError>(
                status_error(old(self).status, new_status),
            ) && final(self)@ == old(self)@,
    {
        if !status_transition_allowed(self.status, new_status) {
            return Err(
                match self.status {
                    Some(from) => TransitionError::InvalidStatus { from, to: new_status },
                    None => TransitionError::StatusNotSet { to: new_status },
                },
            );
        }
        self.status = Some(new_status);
        self.updated_at = now;
        if matches!(new_status, OrbStatus::Done | OrbStatus::Failed | OrbStatus::Cancelled) {
            self.closed_at = Some(self.updated_at);
        }
        Ok(())
    }

    /// Transitions phase (for epic/feature types).
    ///
    /// # Errors
    ///
    /// `TransitionError::InvalidPhase` if the move is not allowed;
    /// `TransitionError::PhaseNotSet` if the orb has no current phase and `new_phase` is
    /// neither `Draft` nor `Tombstone`. The orb is then left as it was.
    pub fn set_phase(&mut self, new_phase: OrbPhase) -> (r: Result<(), TransitionError>)
        ensures
            phase_move_allowed(old(self).phase, new_phase) ==> r == Ok::<(), TransitionError>(())
                && final(self)@ == old(self)@.moved_to_phase(new_phase, final(self).updated_at),
            !phase_move_allowed(old(self).phase, new_phase) ==> r == Err::<(), TransitionError>(
                phase_error(old(self).phase, new_phase),
            ) && final(self)@ == old(self)@,
    {
        self.set_phase_at(new_phase, utc_now())
    }

    /// Transitions phase at `now`, as [`Orb::set_phase`] does.
    ///
    /// # Errors
    ///
    /// As for [`Orb::set_phase`].
    pub fn set_phase_at(&mut self, new_phase: OrbPhase, now: Timestamp) -> (r: Result<
        (),
        TransitionError,
    >)
        ensures
            phase_move_allowed(old(self).phase, new_phase) ==> r == Ok::<(), TransitionError>(())
                && final(self)@ == old(self)@.moved_to_phase(new_phase, now),
            !phase_move_allowed(old(self).phase, new_phase) ==> r == Err::<(), TransitionError>(
                phase_error(old(self).phase, new_phase),
            ) && final(self)@ == old(self)@,
    {
        if !phase_transition_allowed(self.phase, new_phase) {
            return Err(
                match self.phase {
                    Some(from) => TransitionError::InvalidPhase { from, to: new_phase },
                    None => TransitionError::PhaseNotSet { to: new_phase },
                },
            );
        }
        self.phase = Some(new_phase);
        self.updated_at = now;
        if matches!(new_phase, OrbPhase::Done | OrbPhase::Failed | OrbPhase::Cancelled) {
            self.closed_at = Some(self.updated_at);
        }
        Ok(())
    }

    /// Bumps `revision_count` and takes the orb out of `Done`, back into the pipeline. The
    /// target depends on the orb's type and the requested scope:
    ///
    /// - Task orbs: always `Active` (no separate refining phase).
    /// - Phase orbs + `Execution`: `Executing` (re-run with critique).
    /// - Phase orbs + `Decomposition`: `Refining` (re-plan).
    ///
    /// # Errors
    ///
    /// Returns `TransitionError::RevisionCapExceeded` if the orb has already revised
    /// [`MAX_REVISIONS`] times, and the transition error to the target if the orb is not in
    /// `Done`. The orb is then left as it was.
    pub fn try_begin_revision(&mut self, scope: ReviseScope) -> (r: Result<(), TransitionError>)
        ensures
            r == revision_outcome(old(self)@, scope),
            r is Ok ==> final(self)@ == old(self)@.revised(scope, final(self).updated_at),
            r is Err ==> final(self)@ == old(self)@,
    {
        self.try_begin_revision_at(scope, utc_now())
    }

    /// Sends the orb back into the pipeline at `now`, as [`Orb::try_begin_revision`] does.
    ///
    /// # Errors
    ///
    /// As for [`Orb::try_begin_revision`].
    pub fn try_begin_revision_at(&mut self, scope: ReviseScope, now: Timestamp) -> (r: Result<
        (),
        TransitionError,
    >)
        ensures
            r == revision_outcome(old(self)@, scope),
            r is Ok ==> final(self)@ == old(self)@.revised(scope, now),
            r is Err ==> final(self)@ == old(self)@,
    {
        if self.revision_count >= MAX_REVISIONS {
            return Err(
                TransitionError::RevisionCapExceeded {
                    count: self.revision_count,
                    cap: MAX_REVISIONS,
                },
            );
        }
        if self.orb_type.uses_phase() {
            let target = match scope {
                ReviseScope::Execution => OrbPhase::Executing,
                ReviseScope::Decomposition => OrbPhase::Refining,
            };
            match self.phase {
                None => {
                    return Err(TransitionError::PhaseNotSet { to: target });
                },
                Some(OrbPhase::Done) => {
                    self.set_phase_at(target, now)?;
                },
                Some(from) => {
                    return Err(TransitionError::InvalidPhase { from, to: target });
                },
            }
        } else {
            let target = OrbStatus::Active;
            match self.status {
                None => {
                    return Err(TransitionError::StatusNotSet { to: target });
                },
                Some(OrbStatus::Done) => {
                    self.set_status_at(target, now)?;
                },
                Some(from) => {
                    return Err(TransitionError::InvalidStatus { from, to: target });
                },
            }
        }
        self.revision_count = self.revision_count + 1;
        self.closed_at = None;
        Ok(())
    }
}

/// Scope of a revision re-entry: informs which pipeline phase the orb returns to.
#[derive(Debug, Clone, Copy, PartialEq, Eq, Structural)]
pub enum ReviseScope {
    /// Re-run the same plan (the result was bad but the plan was OK).
    Execution,
    /// Re-plan from scratch (the plan itself was wrong).
    Decomposition,
}

/// Errors returned by `Orb::set_status` and `Orb::set_phase` when a transition is not
/// permitted, and by `Orb::try_begin_revision`.
#[allow(inconsistent_fields)]
#[derive(Debug, Clone, Copy, PartialEq, Eq, Structural)]
pub enum TransitionError {
    InvalidStatus { from: OrbStatus, to: OrbStatus },
    InvalidPhase { from: OrbPhase, to: OrbPhase },
    StatusNotSet { to: OrbStatus },
    PhaseNotSet { to: OrbPhase },
    RevisionCapExceeded { count: u8, cap: u8 },
}

/// The name of a status.
pub open spec fn status_name(status: OrbStatus) -> Seq<char> {
    match status {
        OrbStatus::Draft => "Draft"@,
        OrbStatus::Pending => "Pending"@,
        OrbStatus::Active => "Active"@,
        OrbStatus::Review => "Review"@,
        OrbStatus::Done => "Done"@,
        OrbStatus::Failed => "Failed"@,
        OrbStatus::Cancelled => "Cancelled"@,
        OrbStatus::Deferred => "Deferred"@,
        OrbStatus::Tombstone => "Tombstone"@,
    }
}

/// The name of a phase.
pub open spec fn phase_name(phase: OrbPhase) -> Seq<char> {
    match phase {
        OrbPhase::Draft => "Draft"@,
        OrbPhase::Pending => "Pending"@,
        OrbPhase::Speccing => "Speccing"@,
        OrbPhase::Decomposing => "Decomposing"@,
        OrbPhase::Refining => "Refining"@,
        OrbPhase::Review => "Review"@,
        OrbPhase::Waiting => "Waiting"@,
        OrbPhase::Executing => "Executing"@,
        OrbPhase::Reevaluating => "Reevaluating"@,
        OrbPhase::Done => "Done"@,
        OrbPhase::Failed => "Failed"@,
        OrbPhase::Cancelled => "Cancelled"@,
        OrbPhase::Deferred => "Deferred"@,
        OrbPhase::Tombstone => "Tombstone"@,
    }
}

/// The name of a status in lower case.
pub open spec fn status_slug(status: OrbStatus) -> Seq<char> {
    match status {
        OrbStatus::Draft => "draft"@,
        OrbStatus::Pending => "pending"@,
        OrbStatus::Active => "active"@,
        OrbStatus::Review => "review"@,
        OrbStatus::Done => "done"@,
        OrbStatus::Failed => "failed"@,
        OrbStatus::Cancelled => "cancelled"@,
        OrbStatus::Deferred => "deferred"@,
        OrbStatus::Tombstone => "tombstone"@,
    }
}

/// The name of a phase in lower case.
pub open spec fn phase_slug(phase: OrbPhase) -> Seq<char> {
    match phase {
        OrbPhase::Draft => "draft"@,
        OrbPhase::Pending => "pending"@,
        OrbPhase::Speccing => "speccing"@,
        OrbPhase::Decomposing => "decomposing"@,
        OrbPhase::Refining => "refining"@,
        OrbPhase::Review => "review"@,
        OrbPhase::Waiting => "waiting"@,
        OrbPhase::Executing => "executing"@,
        OrbPhase::Reevaluating => "reevaluating"@,
        OrbPhase::Done => "done"@,
        OrbPhase::Failed => "failed"@,
        OrbPhase::Cancelled => "cancelled"@,
        OrbPhase::Deferred => "deferred"@,
        OrbPhase::Tombstone => "tombstone"@,
    }
}

impl OrbStatus {
    /// The name of the status in lower case.
    pub fn slug(self) -> (s: &'static str)
        ensures
            s@ == status_slug(self),
    {
        match self {
            OrbStatus::Draft => "draft",
            OrbStatus::Pending => "pending",
            OrbStatus::Active => "active",
            OrbStatus::Review => "review",
            OrbStatus::Done => "done",
            OrbStatus::Failed => "failed",
            OrbStatus::Cancelled => "cancelled",
            OrbStatus::Deferred => "deferred",
            OrbStatus::Tombstone => "tombstone",
        }
    }

    /// The name of the status.
    pub fn name(self) -> (s: &'static str)
        ensures
            s@ == status_name(self),
    {
        match self {
            OrbStatus::Draft => "Draft",
            OrbStatus::Pending => "Pending",
            OrbStatus::Active => "Active",
            OrbStatus::Review => "Review",
            OrbStatus::Done => "Done",
            OrbStatus::Failed => "Failed",
            OrbStatus::Cancelled => "Cancelled",
            OrbStatus::Deferred => "Deferred",
            OrbStatus::Tombstone => "Tombstone",
        }
    }

    /// True for `Done`, `Failed`, `Cancelled`, `Tombstone`.
    #[must_use]
    pub fn is_terminal(self) -> (r: bool)
        ensures
            r == status_terminal(self),
    {
        matches!(
            self,
            OrbStatus::Done | OrbStatus::Failed | OrbStatus::Cancelled | OrbStatus::Tombstone
        )
    }
}

impl OrbPhase {
    /// The name of the phase in lower case.
    pub fn slug(self) -> (s: &'static str)
        ensures
            s@ == phase_slug(self),
    {
        match self {
            OrbPhase::Draft => "draft",
            OrbPhase::Pending => "pending",
            OrbPhase::Speccing => "speccing",
            OrbPhase::Decomposing => "decomposing",
            OrbPhase::Refining => "refining",
            OrbPhase::Review => "review",
            OrbPhase::Waiting => "waiting",
            OrbPhase::Executing => "executing",
            OrbPhase::Reevaluating => "reevaluating",
            OrbPhase::Done => "done",
            OrbPhase::Failed => "failed",
            OrbPhase::Cancelled => "cancelled",
            OrbPhase::Deferred => "deferred",
            OrbPhase::Tombstone => "tombstone",
        }
    }

    /// The name of the phase.
    pub fn name(self) -> (s: &'static str)
        ensures
            s@ == phase_name(self),
    {
        match self {
            OrbPhase::Draft => "Draft",
            OrbPhase::Pending => "Pending",
            OrbPhase::Speccing => "Speccing",
            OrbPhase::Decomposing => "Decomposing",
            OrbPhase::Refining => "Refining",
            OrbPhase::Review => "Review",
            OrbPhase::Waiting => "Waiting",
            OrbPhase::Executing => "Executing",
            OrbPhase::Reevaluating => "Reevaluating",
            OrbPhase::Done => "Done",
            OrbPhase::Failed => "Failed",
            OrbPhase::Cancelled => "Cancelled",
            OrbPhase::Deferred => "Deferred",
            OrbPhase::Tombstone => "Tombstone",
        }
    }

    /// True for `Done`, `Failed`, `Cancelled`, `Tombstone`.
    #[must_use]
    pub fn is_terminal(self) -> (r: bool)
        ensures
            r == phase_terminal(self),
    {
        matches!(
            self,
            OrbPhase::Done | OrbPhase::Failed | OrbPhase::Cancelled | OrbPhase::Tombstone
        )
    }
}

/// The text of a transition error.
pub open spec fn transition_message(e: TransitionError) -> Seq<char> {
    match e {
        TransitionError::InvalidStatus { from, to } => "invalid status transition: "@ + status_name(
            from,
        ) + " -> "@ + status_name(to),
        TransitionError::InvalidPhase { from, to } => "invalid phase transition: "@ + phase_name(
            from,
        ) + " -> "@ + phase_name(to),
        TransitionError::StatusNotSet { to } =>
            "orb has no status set; only Draft is reachable, requested "@ + status_name(to),
        TransitionError::PhaseNotSet { to } =>
            "orb has no phase set; only Draft is reachable, requested "@ + phase_name(to),
        TransitionError::RevisionCapExceeded { count, cap } =>
            "revision cap exceeded: orb has revised "@ + crate::digits::decimal(count as nat)
            + " times, cap is "@ + crate::digits::decimal(cap as nat),
    }
}

impl TransitionError {
    /// The text of the error.
    pub fn message(&self) -> (s: String)
        ensures
            s@ == transition_message(*self),
    {
        let mut s = String::new();
        match self {
            TransitionError::InvalidStatus { from, to } => {
                s.append("invalid status transition: ");
                s.append(from.name());
                s.append(" -> ");
                s.append(to.name());
            },
            TransitionError::InvalidPhase { from, to } => {
                s.append("invalid phase transition: ");
                s.append(from.name());
                s.append(" -> ");
                s.append(to.name());
            },
            TransitionError::StatusNotSet { to } => {
                s.append("orb has no status set; only Draft is reachable, requested ");
                s.append(to.name());
            },
            TransitionError::PhaseNotSet { to } => {
                s.append("orb has no phase set; only Draft is reachable, requested ");
                s.append(to.name());
            },
            TransitionError::RevisionCapExceeded { count, cap } => {
                s.append("revision cap exceeded: orb has revised ");
                let c = crate::digits::decimal_text(*count as u128);
                s.append(c.as_str());
                s.append(" times, cap is ");
                let c = crate::digits::decimal_text(*cap as u128);
                s.append(c.as_str());
            },
        }
        assert(s@ =~= transition_message(*self));
        s
    }
}

/// Statuses in which the work on an orb has ended.
pub open spec fn status_terminal(s: OrbStatus) -> bool {
    s is Done || s is Failed || s is Cancelled || s is Tombstone
}

/// Phases in which the work on an orb has ended.
pub open spec fn phase_terminal(p: OrbPhase) -> bool {
    p is Done || p is Failed || p is Cancelled || p is Tombstone
}

/// The arrows of the status lifecycle between two different statuses, but for those to
/// `Tombstone`.
pub open spec fn status_arrow(from: OrbStatus, to: OrbStatus) -> bool {
    match from {
        OrbStatus::Draft => to is Pending || to is Deferred || to is Cancelled,
        OrbStatus::Pending => to is Active || to is Deferred || to is Cancelled,
        OrbStatus::Deferred => to is Pending,
        OrbStatus::Active => to is Review || to is Done || to is Failed || to is Cancelled,
        OrbStatus::Review => to is Done || to is Active || to is Failed || to is Cancelled,
        OrbStatus::Done => to is Active,
        OrbStatus::Failed | OrbStatus::Cancelled | OrbStatus::Tombstone => false,
    }
}

/// Whether an orb may move to status `to`. `Tombstone` can be reached from everywhere; an
/// orb without a status may only become a draft; to stay is allowed.
pub open spec fn status_move_allowed(from: Option<OrbStatus>, to: OrbStatus) -> bool {
    to is Tombstone || match from {
        None => to is Draft,
        Some(from) => from == to || status_arrow(from, to),
    }
}

/// The arrows of the phase lifecycle between two different phases, but for those to
/// `Tombstone`, and for those out of every phase that is not terminal.
pub open spec fn phase_arrow(from: OrbPhase, to: OrbPhase) -> bool {
    match from {
        OrbPhase::Draft => to is Pending,
        OrbPhase::Pending => to is Speccing,
        OrbPhase::Speccing => to is Decomposing,
        OrbPhase::Decomposing => to is Refining,
        OrbPhase::Refining => to is Review,
        OrbPhase::Review => to is Waiting || to is Done || to is Refining || to is Executing,
        OrbPhase::Waiting => to is Executing || to is Reevaluating,
        OrbPhase::Reevaluating => to is Waiting || to is Executing || to is Refining || to is Review,
        OrbPhase::Executing => to is Review || to is Done,
        OrbPhase::Deferred => to is Pending || to is Waiting,
        OrbPhase::Done => to is Executing || to is Refining,
        OrbPhase::Failed | OrbPhase::Cancelled | OrbPhase::Tombstone => false,
    }
}

/// Whether an orb may move to phase `to`. `Tombstone` can be reached from everywhere; an orb
/// without a phase may only become a draft; to stay is allowed; and from every phase that
/// is not terminal an orb may be cancelled, fail or be deferred.
pub open spec fn phase_move_allowed(from: Option<OrbPhase>, to: OrbPhase) -> bool {
    to is Tombstone || match from {
        None => to is Draft,
        Some(from) => {
            ||| from == to
            ||| (to is Cancelled || to is Failed || to is Deferred) && !phase_terminal(from)
            ||| phase_arrow(from, to)
        },
    }
}

/// Returns true if moving from `from` (None means orb has no status yet) to `to` is permitted.
pub fn status_transition_allowed(from: Option<OrbStatus>, to: OrbStatus) -> (r: bool)
    ensures
        r == status_move_allowed(from, to),
{
    if matches!(to, OrbStatus::Tombstone) {
        return true;
    }
    let from = match from {
        Some(from) => from,
        None => {
            return matches!(to, OrbStatus::Draft);
        },
    };
    if from == to {
        return true;
    }
    matches!(
        (from, to),
        (OrbStatus::Draft, OrbStatus::Pending | OrbStatus::Deferred | OrbStatus::Cancelled)
            | (OrbStatus::Pending, OrbStatus::Active | OrbStatus::Deferred | OrbStatus::Cancelled)
            | (OrbStatus::Deferred, OrbStatus::Pending)
            | (
                OrbStatus::Active,
                OrbStatus::Review | OrbStatus::Done | OrbStatus::Failed | OrbStatus::Cancelled
            )
            | (
                OrbStatus::Review,
                OrbStatus::Done | OrbStatus::Active | OrbStatus::Failed | OrbStatus::Cancelled
            )
            | (OrbStatus::Done, OrbStatus::Active)
    )
}

/// Returns true if moving from `from` (None means orb has no phase yet) to `to` is permitted.
pub fn phase_transition_allowed(from: Option<OrbPhase>, to: OrbPhase) -> (r: bool)
    ensures
        r == phase_move_allowed(from, to),
{
    if matches!(to, OrbPhase::Tombstone) {
        return true;
    }
    let from = match from {
        Some(from) => from,
        None => {
            return matches!(to, OrbPhase::Draft);
        },
    };
    if from == to {
        return true;
    }
    if matches!(to, OrbPhase::Cancelled | OrbPhase::Failed | OrbPhase::Deferred)
        && !from.is_terminal() {
        return true;
    }
    if matches!(from, OrbPhase::Deferred) && matches!(to, OrbPhase::Pending | OrbPhase::Waiting) {
        return true;
    }
    matches!(
        (from, to),
        (OrbPhase::Draft, OrbPhase::Pending)
            | (OrbPhase::Pending, OrbPhase::Speccing)
            | (OrbPhase::Speccing, OrbPhase::Decomposing)
            | (OrbPhase::Decomposing, OrbPhase::Refining)
            | (OrbPhase::Refining, OrbPhase::Review)
            | (OrbPhase::Review, OrbPhase::Waiting)
            | (OrbPhase::Review, OrbPhase::Done)
            | (OrbPhase::Review, OrbPhase::Refining)
            | (OrbPhase::Review, OrbPhase::Executing)
            | (OrbPhase::Waiting, OrbPhase::Executing)
            | (OrbPhase::Waiting, OrbPhase::Reevaluating)
            | (OrbPhase::Reevaluating, OrbPhase::Waiting)
            | (OrbPhase::Reevaluating, OrbPhase::Executing)
            | (OrbPhase::Reevaluating, OrbPhase::Refining)
            | (OrbPhase::Reevaluating, OrbPhase::Review)
            | (OrbPhase::Executing, OrbPhase::Review)
            | (OrbPhase::Executing, OrbPhase::Done)
            | (OrbPhase::Done, OrbPhase::Executing)
            | (OrbPhase::Done, OrbPhase::Refining)
    )
}

/// `Tombstone` can be reached from every status and every phase, and without one.
pub proof fn law_tombstone_reachable(status: Option<OrbStatus>, phase: Option<OrbPhase>)
    ensures
        status_move_allowed(status, OrbStatus::Tombstone),
        phase_move_allowed(phase, OrbPhase::Tombstone),
{
}

/// Once an orb has ended there is no way on but to stay, to be tombstoned, or, out of
/// `Done`, to be revised.
pub proof fn law_terminal_is_final(s: OrbStatus, to: OrbStatus, p: OrbPhase, to_phase: OrbPhase)
    ensures
        status_terminal(s) && status_move_allowed(Some(s), to) ==> {
            ||| to == s
            ||| to is Tombstone
            ||| s is Done && to is Active
        },
        phase_terminal(p) && phase_move_allowed(Some(p), to_phase) ==> {
            ||| to_phase == p
            ||| to_phase is Tombstone
            ||| p is Done && (to_phase is Executing || to_phase is Refining)
        },
{
}

/// An orb without a status or phase can only become a draft or be tombstoned.
pub proof fn law_first_state(to: OrbStatus, to_phase: OrbPhase)
    ensures
        status_move_allowed(None, to) <==> to is Draft || to is Tombstone,
        phase_move_allowed(None, to_phase) <==> to_phase is Draft || to_phase is Tombstone,
{
}

/// A phase orb can be cancelled, fail or be deferred from every phase that is not terminal.
pub proof fn law_phase_exits(p: OrbPhase)
    requires
        !phase_terminal(p),
    ensures
        phase_move_allowed(Some(p), OrbPhase::Cancelled),
        phase_move_allowed(Some(p), OrbPhase::Failed),
        phase_move_allowed(Some(p), OrbPhase::Deferred),
{
}

/// A status from which `Cancelled` can be reached is not terminal, or is `Cancelled`.
pub proof fn law_cancel_from_open_status(s: OrbStatus)
    ensures
        status_move_allowed(Some(s), OrbStatus::Cancelled) ==> !status_terminal(s)
            || s is Cancelled,
{
}

/// A deferred orb that is taken back is pending, or waits if it is a phase orb with a parent;
/// apart from that it is as it was before, but for the time of the update.
pub proof fn law_undefer_after_defer(orb: OrbView, t: Timestamp, u: Timestamp)
    requires
        orb.can_defer(),
    ensures
        orb.deferred(t).undeferred(u) == (OrbView {
            status: if orb.status is Some {
                Some(OrbStatus::Pending)
            } else {
                None
            },
            phase: if orb.status is Some {
                orb.phase
            } else if orb.parent_id is Some {
                Some(OrbPhase::Waiting)
            } else {
                Some(OrbPhase::Pending)
            },
            updated_at: u,
            ..orb
        }),
{
}

/// Where an orb can be deferred, its lifecycle allows the move.
pub proof fn law_defer_is_allowed_move(orb: OrbView)
    requires
        orb.can_defer(),
    ensures
        orb.status is Some ==> status_move_allowed(orb.status, OrbStatus::Deferred),
        orb.status is None ==> phase_move_allowed(orb.phase, OrbPhase::Deferred),
{
}

/// A tombstoned orb counts as tombstoned and as cancelled.
pub proof fn law_tombstone(orb: OrbView, reason: Option<Seq<char>>, now: Timestamp)
    ensures
        orb.tombstoned(reason, now).is_tombstoned(),
        orb.tombstoned(reason, now).effective_status() is Cancelled,
{
}

/// The content hash depends on the content alone: two orbs that agree in title, description,
/// design, acceptance criteria, type, scope and priority have the same hash, whatever their
/// other fields hold.
pub proof fn law_hash_of_content(a: OrbView, b: OrbView)
    requires
        a.title == b.title,
        a.description == b.description,
        a.design == b.design,
        a.acceptance_criteria == b.acceptance_criteria,
        a.orb_type == b.orb_type,
        a.scope == b.scope,
        a.priority == b.priority,
    ensures
        a.hash() == b.hash(),
{
}

/// The lifecycle fields of an orb fit its type from the start, and every move that is made
/// with the operation for its type keeps it so.
pub proof fn law_lifecycle_fits(
    orb: OrbView,
    id: Seq<char>,
    orb_type: OrbTypeView,
    status: OrbStatus,
    phase: OrbPhase,
    scope: ReviseScope,
    reason: Option<Seq<char>>,
    now: Timestamp,
)
    ensures
        fresh_orb(id, orb.title, orb.description, now).lifecycle_fits(),
        orb.with_type(orb_type).lifecycle_fits(),
        orb.lifecycle_fits() ==> {
            &&& orb.deferred(now).lifecycle_fits()
            &&& orb.undeferred(now).lifecycle_fits()
            &&& orb.tombstoned(reason, now).lifecycle_fits()
            &&& orb.revised(scope, now).lifecycle_fits()
            &&& !orb.orb_type.uses_phase() ==> orb.moved_to_status(status, now).lifecycle_fits()
            &&& orb.orb_type.uses_phase() ==> orb.moved_to_phase(phase, now).lifecycle_fits()
        },
{
}

/// Only an orb in `Done` is revised. A revision is an allowed move out of `Done`, it clears
/// the closing time, the number of revisions goes up by one with it, and that number never
/// passes the cap.
pub proof fn law_revisions_capped(orb: OrbView, scope: ReviseScope, now: Timestamp)
    requires
        revision_outcome(orb, scope) is Ok,
    ensures
        orb.orb_type.uses_phase() ==> orb.phase == Some(OrbPhase::Done) && phase_move_allowed(
            orb.phase,
            revision_phase(scope),
        ),
        !orb.orb_type.uses_phase() ==> orb.status == Some(OrbStatus::Done) && status_move_allowed(
            orb.status,
            OrbStatus::Active,
        ),
        orb.revised(scope, now).revision_count == orb.revision_count + 1,
        orb.revised(scope, now).revision_count <= MAX_REVISIONS,
        orb.revised(scope, now).closed_at is None,
        orb.revision_count + 1 == MAX_REVISIONS ==> revision_outcome(
            orb.revised(scope, now),
            scope,
        ) is Err,
{
}

/// Between two different statuses, `Tombstone` aside, exactly these moves are allowed: a draft
/// becomes pending, is deferred or cancelled; pending work is taken up, deferred or cancelled;
/// deferred work becomes pending; active work goes to review, is done, fails or is cancelled;
/// work in review is done, goes back to work, fails or is cancelled; and done work is taken up
/// again.
pub proof fn law_status_moves(from: OrbStatus, to: OrbStatus)
    ensures
        status_move_allowed(Some(from), to) <==> {
            ||| from == to
            ||| to == OrbStatus::Tombstone
            ||| from == OrbStatus::Draft && to == OrbStatus::Pending
            ||| from == OrbStatus::Draft && to == OrbStatus::Deferred
            ||| from == OrbStatus::Draft && to == OrbStatus::Cancelled
            ||| from == OrbStatus::Pending && to == OrbStatus::Active
            ||| from == OrbStatus::Pending && to == OrbStatus::Deferred
            ||| from == OrbStatus::Pending && to == OrbStatus::Cancelled
            ||| from == OrbStatus::Deferred && to == OrbStatus::Pending
            ||| from == OrbStatus::Active && to == OrbStatus::Review
            ||| from == OrbStatus::Active && to == OrbStatus::Done
            ||| from == OrbStatus::Active && to == OrbStatus::Failed
            ||| from == OrbStatus::Active && to == OrbStatus::Cancelled
            ||| from == OrbStatus::Review && to == OrbStatus::Done
            ||| from == OrbStatus::Review && to == OrbStatus::Active
            ||| from == OrbStatus::Review && to == OrbStatus::Failed
            ||| from == OrbStatus::Review && to == OrbStatus::Cancelled
            ||| from == OrbStatus::Done && to == OrbStatus::Active
        },
{
}

/// Between two different phases, `Tombstone` aside, exactly these moves are allowed: the steps
/// of the pipeline and the ways back in it, deferred work becomes pending or waits, done work is
/// executed or refined again, and everything that has not ended can be cancelled, fail or be
/// deferred.
pub proof fn law_phase_moves(from: OrbPhase, to: OrbPhase)
    ensures
        phase_move_allowed(Some(from), to) <==> {
            ||| from == to
            ||| to == OrbPhase::Tombstone
            ||| (to == OrbPhase::Cancelled || to == OrbPhase::Failed || to == OrbPhase::Deferred)
                && from != OrbPhase::Done && from != OrbPhase::Failed && from
                != OrbPhase::Cancelled && from != OrbPhase::Tombstone
            ||| from == OrbPhase::Draft && to == OrbPhase::Pending
            ||| from == OrbPhase::Pending && to == OrbPhase::Speccing
            ||| from == OrbPhase::Speccing && to == OrbPhase::Decomposing
            ||| from == OrbPhase::Decomposing && to == OrbPhase::Refining
            ||| from == OrbPhase::Refining && to == OrbPhase::Review
            ||| from == OrbPhase::Review && to == OrbPhase::Waiting
            ||| from == OrbPhase::Review && to == OrbPhase::Done
            ||| from == OrbPhase::Review && to == OrbPhase::Refining
            ||| from == OrbPhase::Review && to == OrbPhase::Executing
            ||| from == OrbPhase::Waiting && to == OrbPhase::Executing
            ||| from == OrbPhase::Waiting && to == OrbPhase::Reevaluating
            ||| from == OrbPhase::Reevaluating && to == OrbPhase::Waiting
            ||| from == OrbPhase::Reevaluating && to == OrbPhase::Executing
            ||| from == OrbPhase::Reevaluating && to == OrbPhase::Refining
            ||| from == OrbPhase::Reevaluating && to == OrbPhase::Review
            ||| from == OrbPhase::Executing && to == OrbPhase::Review
            ||| from == OrbPhase::Executing && to == OrbPhase::Done
            ||| from == OrbPhase::Deferred && to == OrbPhase::Pending
            ||| from == OrbPhase::Deferred && to == OrbPhase::Waiting
            ||| from == OrbPhase::Done && to == OrbPhase::Executing
            ||| from == OrbPhase::Done && to == OrbPhase::Refining
        },
{
}

/// The states in which work has ended are `Done`, `Failed`, `Cancelled` and `Tombstone`.
pub proof fn law_terminal_states(status: OrbStatus, phase: OrbPhase)
    ensures
        status_terminal(status) <==> status == OrbStatus::Done || status == OrbStatus::Failed
            || status == OrbStatus::Cancelled || status == OrbStatus::Tombstone,
        phase_terminal(phase) <==> phase == OrbPhase::Done || phase == OrbPhase::Failed || phase
            == OrbPhase::Cancelled || phase == OrbPhase::Tombstone,
{
}

/// A move that is not allowed is refused with the state that the orb is in and the one that was
/// asked for, and one of an orb that has no state with that one alone.
pub proof fn law_refused_moves(
    from: OrbStatus,
    to: OrbStatus,
    from_phase: OrbPhase,
    to_phase: OrbPhase,
)
    ensures
        status_error(Some(from), to) == (TransitionError::InvalidStatus { from, to }),
        status_error(None, to) == (TransitionError::StatusNotSet { to }),
        phase_error(Some(from_phase), to_phase) == (TransitionError::InvalidPhase {
            from: from_phase,
            to: to_phase,
        }),
        phase_error(None, to_phase) == (TransitionError::PhaseNotSet { to: to_phase }),
{
}

/// A status that has a task status of the same name counts as that one; drafts and deferred
/// orbs count as pending and tombstoned ones as cancelled.
pub proof fn law_effective_of_status(orb: OrbView)
    ensures
        orb.status == Some(OrbStatus::Draft) ==> orb.effective_status() == TaskStatus::Pending,
        orb.status == Some(OrbStatus::Pending) ==> orb.effective_status() == TaskStatus::Pending,
        orb.status == Some(OrbStatus::Deferred) ==> orb.effective_status() == TaskStatus::Pending,
        orb.status == Some(OrbStatus::Active) ==> orb.effective_status() == TaskStatus::Active,
        orb.status == Some(OrbStatus::Review) ==> orb.effective_status() == TaskStatus::Review,
        orb.status == Some(OrbStatus::Done) ==> orb.effective_status() == TaskStatus::Done,
        orb.status == Some(OrbStatus::Failed) ==> orb.effective_status() == TaskStatus::Failed,
        orb.status == Some(OrbStatus::Cancelled) ==> orb.effective_status()
            == TaskStatus::Cancelled,
        orb.status == Some(OrbStatus::Tombstone) ==> orb.effective_status()
            == TaskStatus::Cancelled,
{
}

/// Of an orb without a status, a phase that has a task status of the same name counts as that
/// one; what is yet to begin counts as pending, what is being worked on as active, and tombstoned
/// orbs as cancelled. An orb with neither is pending.
pub proof fn law_effective_of_phase(orb: OrbView)
    requires
        orb.status is None,
    ensures
        orb.phase is None ==> orb.effective_status() == TaskStatus::Pending,
        orb.phase == Some(OrbPhase::Draft) ==> orb.effective_status() == TaskStatus::Pending,
        orb.phase == Some(OrbPhase::Pending) ==> orb.effective_status() == TaskStatus::Pending,
        orb.phase == Some(OrbPhase::Deferred) ==> orb.effective_status() == TaskStatus::Pending,
        orb.phase == Some(OrbPhase::Waiting) ==> orb.effective_status() == TaskStatus::Pending,
        orb.phase == Some(OrbPhase::Speccing) ==> orb.effective_status() == TaskStatus::Active,
        orb.phase == Some(OrbPhase::Decomposing) ==> orb.effective_status() == TaskStatus::Active,
        orb.phase == Some(OrbPhase::Refining) ==> orb.effective_status() == TaskStatus::Active,
        orb.phase == Some(OrbPhase::Executing) ==> orb.effective_status() == TaskStatus::Active,
        orb.phase == Some(OrbPhase::Reevaluating) ==> orb.effective_status() == TaskStatus::Active,
        orb.phase == Some(OrbPhase::Review) ==> orb.effective_status() == TaskStatus::Review,
        orb.phase == Some(OrbPhase::Done) ==> orb.effective_status() == TaskStatus::Done,
        orb.phase == Some(OrbPhase::Failed) ==> orb.effective_status() == TaskStatus::Failed,
        orb.phase == Some(OrbPhase::Cancelled) ==> orb.effective_status() == TaskStatus::Cancelled,
        orb.phase == Some(OrbPhase::Tombstone) ==> orb.effective_status() == TaskStatus::Cancelled,
{
}

/// An orb counts as done only if its status, or without one its phase, is `Done`; the same holds
/// of failed work.
pub proof fn law_counts_as_done(orb: OrbView)
    ensures
        orb.effective_status() == TaskStatus::Done <==> orb.status == Some(OrbStatus::Done) || (
        orb.status is None && orb.phase == Some(OrbPhase::Done)),
        orb.effective_status() == TaskStatus::Failed <==> orb.status == Some(OrbStatus::Failed)
            || (orb.status is None && orb.phase == Some(OrbPhase::Failed)),
        orb.effective_status() == TaskStatus::Review <==> orb.status == Some(OrbStatus::Review)
            || (orb.status is None && orb.phase == Some(OrbPhase::Review)),
{
}

/// An orb is tombstoned exactly if it has a time of deletion, or the status or the phase
/// `Tombstone`.
pub proof fn law_is_tombstoned(orb: OrbView)
    ensures
        orb.deleted_at is Some ==> orb.is_tombstoned(),
        orb.status == Some(OrbStatus::Tombstone) ==> orb.is_tombstoned(),
        orb.phase == Some(OrbPhase::Tombstone) ==> orb.is_tombstoned(),
        orb.deleted_at is None && orb.status != Some(OrbStatus::Tombstone) && orb.phase != Some(
            OrbPhase::Tombstone,
        ) ==> !orb.is_tombstoned(),
{
}

/// An orb can be deferred exactly as a draft or while it is pending, and a phase orb also while
/// it waits.
pub proof fn law_can_defer(orb: OrbView)
    ensures
        orb.status is Some ==> (orb.can_defer() <==> orb.status == Some(OrbStatus::Draft)
            || orb.status == Some(OrbStatus::Pending)),
        orb.status is None ==> (orb.can_defer() <==> orb.phase == Some(OrbPhase::Draft)
            || orb.phase == Some(OrbPhase::Pending) || orb.phase == Some(OrbPhase::Waiting)),
{
}

/// A move to another status changes the status, the time of the update and, where work has
/// ended with it, the time of closing, and nothing else.
pub proof fn law_moved_to_status(orb: OrbView, status: OrbStatus, now: Timestamp)
    ensures
        orb.moved_to_status(status, now).status == Some(status),
        orb.moved_to_status(status, now).updated_at == now,
        status == OrbStatus::Done || status == OrbStatus::Failed || status == OrbStatus::Cancelled
            ==> orb.moved_to_status(status, now).closed_at == Some(now),
        status != OrbStatus::Done && status != OrbStatus::Failed && status != OrbStatus::Cancelled
            ==> orb.moved_to_status(status, now).closed_at == orb.closed_at,
        orb == (OrbView {
            status: orb.status,
            updated_at: orb.updated_at,
            closed_at: orb.closed_at,
            ..orb.moved_to_status(status, now)
        }),
{
}

/// A move to another phase changes the phase, the time of the update and, where work has ended
/// with it, the time of closing, and nothing else.
pub proof fn law_moved_to_phase(orb: OrbView, phase: OrbPhase, now: Timestamp)
    ensures
        orb.moved_to_phase(phase, now).phase == Some(phase),
        orb.moved_to_phase(phase, now).updated_at == now,
        phase == OrbPhase::Done || phase == OrbPhase::Failed || phase == OrbPhase::Cancelled
            ==> orb.moved_to_phase(phase, now).closed_at == Some(now),
        phase != OrbPhase::Done && phase != OrbPhase::Failed && phase != OrbPhase::Cancelled
            ==> orb.moved_to_phase(phase, now).closed_at == orb.closed_at,
        orb == (OrbView {
            phase: orb.phase,
            updated_at: orb.updated_at,
            closed_at: orb.closed_at,
            ..orb.moved_to_phase(phase, now)
        }),
{
}

/// Deferring changes the status, or without one the phase, to `Deferred` and the time of the
/// update, and nothing else.
pub proof fn law_deferred(orb: OrbView, now: Timestamp)
    ensures
        orb.status is Some ==> orb.deferred(now).status == Some(OrbStatus::Deferred)
            && orb.deferred(now).phase == orb.phase,
        orb.status is None ==> orb.deferred(now).phase == Some(OrbPhase::Deferred)
            && orb.deferred(now).status is None,
        orb.deferred(now).updated_at == now,
        orb == (OrbView {
            status: orb.status,
            phase: orb.phase,
            updated_at: orb.updated_at,
            ..orb.deferred(now)
        }),
{
}

/// Taking an orb back from deferral makes a deferred status pending, and a deferred phase pending
/// without a parent and waiting with one. What is not deferred keeps its state. Nothing else
/// changes but the time of the update.
pub proof fn law_undeferred(orb: OrbView, now: Timestamp)
    ensures
        orb.status == Some(OrbStatus::Deferred) ==> orb.undeferred(now).status == Some(
            OrbStatus::Pending,
        ) && orb.undeferred(now).phase == orb.phase,
        orb.status != Some(OrbStatus::Deferred) ==> orb.undeferred(now).status == orb.status,
        orb.status != Some(OrbStatus::Deferred) && orb.phase == Some(OrbPhase::Deferred)
            && orb.parent_id is Some ==> orb.undeferred(now).phase == Some(OrbPhase::Waiting),
        orb.status != Some(OrbStatus::Deferred) && orb.phase == Some(OrbPhase::Deferred)
            && orb.parent_id is None ==> orb.undeferred(now).phase == Some(OrbPhase::Pending),
        orb.phase != Some(OrbPhase::Deferred) ==> orb.undeferred(now).phase == orb.phase,
        orb.undeferred(now).updated_at == now,
        orb == (OrbView {
            status: orb.status,
            phase: orb.phase,
            updated_at: orb.updated_at,
            ..orb.undeferred(now)
        }),
{
}

/// Soft-deleting an orb sets the time and reason of deletion, the time of the update, and the
/// status, or without one the phase, and changes nothing else.
pub proof fn law_tombstoned(orb: OrbView, reason: Option<Seq<char>>, now: Timestamp)
    ensures
        orb.tombstoned(reason, now).deleted_at == Some(now),
        orb.tombstoned(reason, now).delete_reason == reason,
        orb.tombstoned(reason, now).updated_at == now,
        orb.status is Some ==> orb.tombstoned(reason, now).status == Some(OrbStatus::Tombstone)
            && orb.tombstoned(reason, now).phase == orb.phase,
        orb.status is None ==> orb.tombstoned(reason, now).phase == Some(OrbPhase::Tombstone)
            && orb.tombstoned(reason, now).status is None,
        orb == (OrbView {
            status: orb.status,
            phase: orb.phase,
            deleted_at: orb.deleted_at,
            delete_reason: orb.delete_reason,
            updated_at: orb.updated_at,
            ..orb.tombstoned(reason, now)
        }),
{
}

/// A revision goes through exactly where the orb was revised fewer than three times and is done,
/// and is refused otherwise: for the cap first, and then as the move to the target would be.
pub proof fn law_revision_outcome(orb: OrbView, scope: ReviseScope)
    ensures
        orb.revision_count >= 3 ==> revision_outcome(orb, scope) == Err::<(), TransitionError>(
            TransitionError::RevisionCapExceeded { count: orb.revision_count, cap: 3 },
        ),
        orb.revision_count < 3 && (orb.orb_type is Epic || orb.orb_type is Feature) ==> {
            let target = if scope == ReviseScope::Execution {
                OrbPhase::Executing
            } else {
                OrbPhase::Refining
            };
            revision_outcome(orb, scope) == match orb.phase {
                Some(OrbPhase::Done) => Ok::<(), TransitionError>(()),
                Some(from) => Err(TransitionError::InvalidPhase { from, to: target }),
                None => Err(TransitionError::PhaseNotSet { to: target }),
            }
        },
        orb.revision_count < 3 && !(orb.orb_type is Epic) && !(orb.orb_type is Feature)
            ==> revision_outcome(orb, scope) == match orb.status {
            Some(OrbStatus::Done) => Ok::<(), TransitionError>(()),
            Some(from) => Err(TransitionError::InvalidStatus { from, to: OrbStatus::Active }),
            None => Err(TransitionError::StatusNotSet { to: OrbStatus::Active }),
        },
{
}

/// A revision takes an epic or a feature back to execution, or to refinement where the plan was
/// wrong, and every other orb back to work. It counts the revision and clears the time of
/// closing; besides, only the time of the update changes.
pub proof fn law_revised(orb: OrbView, scope: ReviseScope, now: Timestamp)
    requires
        orb.revision_count < 255,
    ensures
        orb.orb_type is Epic || orb.orb_type is Feature ==> orb.revised(scope, now).phase == Some(
            if scope == ReviseScope::Execution {
                OrbPhase::Executing
            } else {
                OrbPhase::Refining
            },
        ) && orb.revised(scope, now).status == orb.status,
        !(orb.orb_type is Epic) && !(orb.orb_type is Feature) ==> orb.revised(scope, now).status
            == Some(OrbStatus::Active) && orb.revised(scope, now).phase == orb.phase,
        orb.revised(scope, now).revision_count == orb.revision_count + 1,
        orb.revised(scope, now).closed_at is None,
        orb.revised(scope, now).updated_at == now,
        orb == (OrbView {
            status: orb.status,
            phase: orb.phase,
            revision_count: orb.revision_count,
            closed_at: orb.closed_at,
            updated_at: orb.updated_at,
            ..orb.revised(scope, now)
        }),
{
}

/// A new orb is a pending task of medium priority that holds its title and description, is as
/// old as it is, and nothing else yet.
pub proof fn law_fresh_orb(
    id: Seq<char>,
    title: Seq<char>,
    description: Seq<char>,
    now: Timestamp,
)
    ensures
        ({
            let o = fresh_orb(id, title, description, now);
            &&& o.id == id && o.title == title && o.description == description
            &&& o.orb_type == OrbTypeView::Task
            &&& o.status == Some(OrbStatus::Pending) && o.phase is None
            &&& o.priority == 3 && o.revision_count == 0 && !o.requires_approval
            &&& o.created_at == now && o.updated_at == now
            &&& o.closed_at is None && o.deleted_at is None && o.delete_reason is None
            &&& o.parent_id is None && o.root_id is None && o.legacy_id is None
            &&& o.content_hash is None && o.design is None && o.acceptance_criteria is None
            &&& o.scope.len() == 0 && o.labels.len() == 0
            &&& o.estimated_minutes is None && o.difficulty is None && o.execution is None
            &&& o.result is None && o.confidence is None && o.review_report is None
            &&& o.review_critique is None && o.external_ref is None
            &&& o.preferred_model is None && o.worker_model is None
        }),
{
}

/// Epics and features start with the phase `Pending` and no status, orbs of all other types
/// with the status `Pending` and no phase. The type is the one asked for, and nothing else
/// changes.
pub proof fn law_with_type(orb: OrbView, orb_type: OrbTypeView)
    ensures
        orb.with_type(orb_type).orb_type == orb_type,
        orb_type == OrbTypeView::Epic || orb_type == OrbTypeView::Feature ==> orb.with_type(
            orb_type,
        ).phase == Some(OrbPhase::Pending) && orb.with_type(orb_type).status is None,
        orb_type != OrbTypeView::Epic && orb_type != OrbTypeView::Feature ==> orb.with_type(
            orb_type,
        ).status == Some(OrbStatus::Pending) && orb.with_type(orb_type).phase is None,
        orb == (OrbView {
            orb_type: orb.orb_type,
            status: orb.status,
            phase: orb.phase,
            ..orb.with_type(orb_type)
        }),
{
}

/// Epics and features go through phases, orbs of all other types do not.
pub proof fn law_uses_phase(name: Seq<char>)
    ensures
        OrbTypeView::Epic.uses_phase(),
        OrbTypeView::Feature.uses_phase(),
        !OrbTypeView::Task.uses_phase(),
        !OrbTypeView::Bug.uses_phase(),
        !OrbTypeView::Chore.uses_phase(),
        !OrbTypeView::Docs.uses_phase(),
        !OrbTypeView::Custom(name).uses_phase(),
{
}

/// The names of the priorities go from `Critical` for 1 to `Backlog` for 5; other numbers have
/// none.
pub proof fn law_priority_names(priority: u8)
    ensures
        priority == 1 ==> priority_label(priority) == "Critical"@,
        priority == 2 ==> priority_label(priority) == "High"@,
        priority == 3 ==> priority_label(priority) == "Medium"@,
        priority == 4 ==> priority_label(priority) == "Low"@,
        priority == 5 ==> priority_label(priority) == "Backlog"@,
        priority == 0 || priority > 5 ==> priority_label(priority) == "Unknown"@,
{
}

/// The names of the types.
pub proof fn law_type_names(name: Seq<char>)
    ensures
        OrbTypeView::Epic.name() == "epic"@,
        OrbTypeView::Feature.name() == "feature"@,
        OrbTypeView::Task.name() == "task"@,
        OrbTypeView::Bug.name() == "bug"@,
        OrbTypeView::Chore.name() == "chore"@,
        OrbTypeView::Docs.name() == "docs"@,
        OrbTypeView::Custom(name).name() == name,
{
}

/// The names of the statuses and phases, in small letters.
pub proof fn law_slugs(status: OrbStatus, phase: OrbPhase)
    ensures
        status == OrbStatus::Draft ==> status_slug(status) == "draft"@,
        status == OrbStatus::Pending ==> status_slug(status) == "pending"@,
        status == OrbStatus::Active ==> status_slug(status) == "active"@,
        status == OrbStatus::Review ==> status_slug(status) == "review"@,
        status == OrbStatus::Done ==> status_slug(status) == "done"@,
        status == OrbStatus::Failed ==> status_slug(status) == "failed"@,
        status == OrbStatus::Cancelled ==> status_slug(status) == "cancelled"@,
        status == OrbStatus::Deferred ==> status_slug(status) == "deferred"@,
        status == OrbStatus::Tombstone ==> status_slug(status) == "tombstone"@,
        phase == OrbPhase::Draft ==> phase_slug(phase) == "draft"@,
        phase == OrbPhase::Pending ==> phase_slug(phase) == "pending"@,
        phase == OrbPhase::Speccing ==> phase_slug(phase) == "speccing"@,
        phase == OrbPhase::Decomposing ==> phase_slug(phase) == "decomposing"@,
        phase == OrbPhase::Refining ==> phase_slug(phase) == "refining"@,
        phase == OrbPhase::Review ==> phase_slug(phase) == "review"@,
        phase == OrbPhase::Waiting ==> phase_slug(phase) == "waiting"@,
        phase == OrbPhase::Executing ==> phase_slug(phase) == "executing"@,
        phase == OrbPhase::Reevaluating ==> phase_slug(phase) == "reevaluating"@,
        phase == OrbPhase::Done ==> phase_slug(phase) == "done"@,
        phase == OrbPhase::Failed ==> phase_slug(phase) == "failed"@,
        phase == OrbPhase::Cancelled ==> phase_slug(phase) == "cancelled"@,
        phase == OrbPhase::Deferred ==> phase_slug(phase) == "deferred"@,
        phase == OrbPhase::Tombstone ==> phase_slug(phase) == "tombstone"@,
{
}

/// The names of the statuses and phases, as errors show them.
pub proof fn law_state_names(status: OrbStatus, phase: OrbPhase)
    ensures
        status == OrbStatus::Draft ==> status_name(status) == "Draft"@,
        status == OrbStatus::Pending ==> status_name(status) == "Pending"@,
        status == OrbStatus::Active ==> status_name(status) == "Active"@,
        status == OrbStatus::Review ==> status_name(status) == "Review"@,
        status == OrbStatus::Done ==> status_name(status) == "Done"@,
        status == OrbStatus::Failed ==> status_name(status) == "Failed"@,
        status == OrbStatus::Cancelled ==> status_name(status) == "Cancelled"@,
        status == OrbStatus::Deferred ==> status_name(status) == "Deferred"@,
        status == OrbStatus::Tombstone ==> status_name(status) == "Tombstone"@,
        phase == OrbPhase::Draft ==> phase_name(phase) == "Draft"@,
        phase == OrbPhase::Pending ==> phase_name(phase) == "Pending"@,
        phase == OrbPhase::Speccing ==> phase_name(phase) == "Speccing"@,
        phase == OrbPhase::Decomposing ==> phase_name(phase) == "Decomposing"@,
        phase == OrbPhase::Refining ==> phase_name(phase) == "Refining"@,
        phase == OrbPhase::Review ==> phase_name(phase) == "Review"@,
        phase == OrbPhase::Waiting ==> phase_name(phase) == "Waiting"@,
        phase == OrbPhase::Executing ==> phase_name(phase) == "Executing"@,
        phase == OrbPhase::Reevaluating ==> phase_name(phase) == "Reevaluating"@,
        phase == OrbPhase::Done ==> phase_name(phase) == "Done"@,
        phase == OrbPhase::Failed ==> phase_name(phase) == "Failed"@,
        phase == OrbPhase::Cancelled ==> phase_name(phase) == "Cancelled"@,
        phase == OrbPhase::Deferred ==> phase_name(phase) == "Deferred"@,
        phase == OrbPhase::Tombstone ==> phase_name(phase) == "Tombstone"@,
{
}

/// The texts of the transition errors name what was refused.
pub proof fn law_transition_messages(
    from: OrbStatus,
    to: OrbStatus,
    from_phase: OrbPhase,
    to_phase: OrbPhase,
    count: u8,
    cap: u8,
)
    ensures
        transition_message(TransitionError::InvalidStatus { from, to })
            == "invalid status transition: "@ + status_name(from) + " -> "@ + status_name(to),
        transition_message(TransitionError::InvalidPhase { from: from_phase, to: to_phase })
            == "invalid phase transition: "@ + phase_name(from_phase) + " -> "@ + phase_name(
            to_phase,
        ),
        transition_message(TransitionError::StatusNotSet { to })
            == "orb has no status set; only Draft is reachable, requested "@ + status_name(to),
        transition_message(TransitionError::PhaseNotSet { to: to_phase })
            == "orb has no phase set; only Draft is reachable, requested "@ + phase_name(to_phase),
        transition_message(TransitionError::RevisionCapExceeded { count, cap })
            == "revision cap exceeded: orb has revised "@ + crate::digits::decimal(count as nat)
            + " times, cap is "@ + crate::digits::decimal(cap as nat),
{
}

/// The content hash is twelve base-36 digits of the SHA-256 digest of the title, the description,
/// the design, the acceptance criteria, the name of the type, the scopes with commas between
/// them, and the priority, with bars between them. What is not there counts as empty.
pub proof fn law_hash_text(orb: OrbView)
    ensures
        orb.hash() == crate::digits::base36(
            crate::sha256::sha256(
                vstd::utf8::encode_utf8(
                    crate::text::joined(
                        seq![
                            orb.title,
                            orb.description,
                            if orb.design is Some {
                                orb.design->0
                            } else {
                                Seq::empty()
                            },
                            if orb.acceptance_criteria is Some {
                                orb.acceptance_criteria->0
                            } else {
                                Seq::empty()
                            },
                            orb.orb_type.name(),
                            crate::text::joined(orb.scope, seq![',']),
                            crate::digits::decimal(orb.priority as nat),
                        ],
                        seq!['|'],
                    ),
                ),
            ),
            12,
        ),
        orb.hash().len() == 12,
{
    crate::id::law_content_text(
        orb.title,
        orb.description,
        orb.design,
        orb.acceptance_criteria,
        orb.orb_type.name(),
        orb.scope,
        orb.priority,
    );
}

/// The identifier of a new orb has three digits, of the hash of its title and description, the
/// creator `system`, the nanoseconds at which it was made, and a zero.
pub proof fn law_fresh_orb_id(title: Seq<char>, description: Seq<char>, now: Timestamp)
    ensures
        fresh_orb_id(title, description, now) == "orb-"@ + crate::digits::base36(
            crate::sha256::sha256(
                vstd::utf8::encode_utf8(
                    crate::text::joined(
                        seq![
                            title,
                            description,
                            "system"@,
                            crate::digits::decimal(epoch_nanos(now) as nat),
                            "0"@,
                        ],
                        "|"@,
                    ),
                ),
            ),
            3,
        ),
{
    reveal_strlit("orb-");
    reveal_strlit("0");
    reveal_strlit("|");
    assert("orb-"@ =~= seq!['o', 'r', 'b', '-']);
    assert("|"@ =~= seq!['|']);
    assert("0"@ =~= crate::digits::decimal(0));
    crate::id::law_seed_text(title, description, "system"@, epoch_nanos(now) as u128, 0);
    assert(!Seq::<Seq<char>>::empty().contains(fresh_orb_id(title, description, now)));
}

/// Epics and features have a phase and no status, and all other orbs a status and no phase.
pub proof fn law_fields_of_lifecycle(orb: OrbView)
    ensures
        orb.orb_type == OrbTypeView::Epic || orb.orb_type == OrbTypeView::Feature ==> (
        orb.lifecycle_fits() <==> orb.phase is Some && orb.status is None),
        orb.orb_type != OrbTypeView::Epic && orb.orb_type != OrbTypeView::Feature ==> (
        orb.lifecycle_fits() <==> orb.status is Some && orb.phase is None),
{
}

} // verus!

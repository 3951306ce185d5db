//! What the commands on a store of orbs do.

use vstd::prelude::*;

use crate::blocking::{arc, is_shortest_cycle};
use crate::dep::{fresh_edge, DepEdge, DepEdgeView, EdgeType};
use crate::dep_store::{orb_named, ready_ids, urgency, waiting_ids, DepError, DepStore, DepStoreView};
use crate::id::{opt_str, OrbId};
use crate::labels::{normalize_labels, normalized, pieces, split_csv};
use crate::log::{keep, views};
use crate::names::{
    edge_type_named, effective_matches, filter_named, lifecycle_label, lifecycle_matches, lowered,
    matches_effective, matches_filter, name_message, parse_edge_type, parse_lifecycle_filter,
    parse_orb_type, parse_phase, parse_status, phase_named, state_label, status_named, type_named,
    LifecycleFilter, NameError, NameErrorView,
};
use crate::orb::{
    fresh_orb, fresh_orb_id, phase_error, phase_move_allowed, status_error, status_move_allowed,
    transition_message, Orb, OrbPhase, OrbStatus, OrbType, OrbTypeView, OrbView, TransitionError,
};
use crate::orb_store::{OrbStore, OrbStoreView};
use crate::schedule::is_schedule;
use crate::task::{clamp_priority, clamped};
use crate::text::{clone_texts, concat, contains_text, opt_text, texts};
use crate::time::{utc_now, Timestamp};
use crate::tree::{build_orb_tree_of, is_tree_below, is_tree_of, OrbNode};

verus! {

/// Why a command did not do its work.
#[allow(inconsistent_fields)]
#[derive(Debug)]
pub enum CommandError {
    /// A name that stands for nothing.
    Name(NameError),
    /// Both deferring and undeferring were asked for.
    DeferAndUndefer,
    /// There is no orb with the identifier.
    NotFound(String),
    /// The orb cannot be deferred from its state.
    NotDeferrable(String),
    /// The orb cannot take the status that was named.
    StatusRefused { name: String, error: TransitionError },
    /// The orb cannot enter the phase that was named.
    PhaseRefused { name: String, error: TransitionError },
}

/// What a [`CommandError`] holds.
pub enum CommandErrorView {
    Name(NameErrorView),
    DeferAndUndefer,
    NotFound(Seq<char>),
    NotDeferrable(Seq<char>),
    StatusRefused { name: Seq<char>, error: TransitionError },
    PhaseRefused { name: Seq<char>, error: TransitionError },
}

impl View for CommandError {
    type V = CommandErrorView;

    open spec fn view(&self) -> CommandErrorView {
        match self {
            CommandError::Name(e) => CommandErrorView::Name(e@),
            CommandError::DeferAndUndefer => CommandErrorView::DeferAndUndefer,
            CommandError::NotFound(id) => CommandErrorView::NotFound(id@),
            CommandError::NotDeferrable(state) => CommandErrorView::NotDeferrable(state@),
            CommandError::StatusRefused { name, error } => CommandErrorView::StatusRefused {
                name: name@,
                error: *error,
            },
            CommandError::PhaseRefused { name, error } => CommandErrorView::PhaseRefused {
                name: name@,
                error: *error,
            },
        }
    }
}

/// The text of a [`CommandError`].
pub open spec fn command_message(e: CommandErrorView) -> Seq<char> {
    match e {
        CommandErrorView::Name(e) => name_message(e),
        CommandErrorView::DeferAndUndefer => "--defer and --undefer cannot be used together"@,
        CommandErrorView::NotFound(id) => "orb not found: "@ + id,
        CommandErrorView::NotDeferrable(state) => "orb cannot be deferred from "@ + state,
        CommandErrorView::StatusRefused { name, .. } => "failed to set status to "@ + name,
        CommandErrorView::PhaseRefused { name, .. } => "failed to set phase to "@ + name,
    }
}

/// The text of what lies behind a [`CommandError`], if anything does.
pub open spec fn command_cause(e: CommandErrorView) -> Option<Seq<char>> {
    match e {
        CommandErrorView::StatusRefused { error, .. } => Some(transition_message(error)),
        CommandErrorView::PhaseRefused { error, .. } => Some(transition_message(error)),
        _ => None,
    }
}

impl CommandError {
    /// The text of the error.
    pub fn message(&self) -> (s: String)
        ensures
            s@ == command_message(self@),
    {
        match self {
            CommandError::Name(e) => e.message(),
            CommandError::DeferAndUndefer => {
                "--defer and --undefer cannot be used together".to_owned()
            },
            CommandError::NotFound(id) => concat("orb not found: ", id.as_str()),
            CommandError::NotDeferrable(state) => {
                concat("orb cannot be deferred from ", state.as_str())
            },
            CommandError::StatusRefused { name, .. } => {
                concat("failed to set status to ", name.as_str())
            },
            CommandError::PhaseRefused { name, .. } => {
                concat("failed to set phase to ", name.as_str())
            },
        }
    }

    /// The text of what lies behind the error, if anything does.
    pub fn cause(&self) -> (s: Option<String>)
        ensures
            opt_text(s) == command_cause(self@),
    {
        match self {
            CommandError::StatusRefused { error, .. } => Some(error.message()),
            CommandError::PhaseRefused { error, .. } => Some(error.message()),
            _ => None,
        }
    }
}

/// The orb that a create command makes.
pub open spec fn created(
    title: Seq<char>,
    description: Seq<char>,
    orb_type: OrbTypeView,
    priority: u8,
    parent: Option<Seq<char>>,
    root: Option<Seq<char>>,
    draft: bool,
    labels: Seq<Seq<char>>,
    now: Timestamp,
) -> OrbView {
    let fresh = fresh_orb(fresh_orb_id(title, description, now), title, description, now).with_type(
        orb_type,
    );
    let placed = OrbView {
        priority: clamped(priority),
        parent_id: parent,
        root_id: if parent is Some && root is Some {
            root
        } else {
            parent
        },
        labels: normalized(labels),
        ..fresh
    };
    let started = if !draft {
        placed
    } else if orb_type.uses_phase() {
        OrbView { phase: Some(OrbPhase::Draft), ..placed }
    } else {
        OrbView { status: Some(OrbStatus::Draft), ..placed }
    };
    OrbView { content_hash: Some(started.hash()), ..started }
}

/// The store with one more record.
pub open spec fn with_record(store: OrbStoreView, orb: OrbView) -> OrbStoreView {
    OrbStoreView { log: store.log.push(orb), ..store }
}

/// Makes an orb and writes it to the store.
pub fn cmd_create(
    store: &mut OrbStore,
    title: &str,
    description: &str,
    orb_type: OrbType,
    priority: u8,
    parent: Option<&str>,
    root: Option<&str>,
    draft: bool,
    labels: &Vec<String>,
) -> (orb: Orb)
    ensures
        orb@ == created(
            title@,
            description@,
            orb_type@,
            priority,
            opt_str(parent),
            opt_str(root),
            draft,
            texts(labels@),
            orb.created_at,
        ),
        final(store)@ == with_record(old(store)@, orb@),
{
    cmd_create_at(
        store,
        title,
        description,
        orb_type,
        priority,
        parent,
        root,
        draft,
        labels,
        utc_now(),
    )
}

/// Makes an orb at `now` and writes it to the store.
pub fn cmd_create_at(
    store: &mut OrbStore,
    title: &str,
    description: &str,
    orb_type: OrbType,
    priority: u8,
    parent: Option<&str>,
    root: Option<&str>,
    draft: bool,
    labels: &Vec<String>,
    now: Timestamp,
) -> (orb: Orb)
    ensures
        orb@ == created(
            title@,
            description@,
            orb_type@,
            priority,
            opt_str(parent),
            opt_str(root),
            draft,
            texts(labels@),
            now,
        ),
        orb.created_at == now,
        final(store)@ == with_record(old(store)@, orb@),
{
    let mut orb = Orb::new_at(title, description, now).with_type(orb_type).with_priority(priority);
    if let Some(p) = parent {
        let root_id = match root {
            Some(r) => Some(OrbId::from_raw(r)),
            None => None,
        };
        orb = orb.with_parent(OrbId::from_raw(p), root_id);
    }
    if draft {
        if orb.orb_type.uses_phase() {
            orb.phase = Some(OrbPhase::Draft);
        } else {
            orb.status = Some(OrbStatus::Draft);
        }
    }
    orb.labels = normalize_labels(labels);
    orb.update_content_hash();
    store.append(&orb);
    orb
}

/// An orb brought to the state with the given name: a phase for epics and features, a status
/// for all others.
pub open spec fn brought_to(orb: OrbView, name: Seq<char>, now: Timestamp) -> Result<
    OrbView,
    CommandErrorView,
> {
    if orb.orb_type.uses_phase() {
        match phase_named(name) {
            Some(phase) => if phase_move_allowed(orb.phase, phase) {
                Ok(orb.moved_to_phase(phase, now))
            } else {
                Err(CommandErrorView::PhaseRefused { name, error: phase_error(orb.phase, phase) })
            },
            None => Err(CommandErrorView::Name(NameErrorView::UnknownPhase(lowered(name)))),
        }
    } else {
        match status_named(name) {
            Some(status) => if status_move_allowed(orb.status, status) {
                Ok(orb.moved_to_status(status, now))
            } else {
                Err(
                    CommandErrorView::StatusRefused {
                        name,
                        error: status_error(orb.status, status),
                    },
                )
            },
            None => Err(CommandErrorView::Name(NameErrorView::UnknownStatus(lowered(name)))),
        }
    }
}

/// Brings the orb to the state with the given name.
///
/// # Errors
///
/// `Name` if there is no such state for the orb, `StatusRefused` or `PhaseRefused` if it
/// cannot be reached. The orb is then left as it was.
pub fn apply_lifecycle(orb: &mut Orb, name: &str, now: Timestamp) -> (r: Result<(), CommandError>)
    ensures
        match r {
            Ok(()) => brought_to(old(orb)@, name@, now) == Ok::<OrbView, CommandErrorView>(
                final(orb)@,
            ),
            Err(e) => brought_to(old(orb)@, name@, now) == Err::<OrbView, CommandErrorView>(e@)
                && final(orb)@ == old(orb)@,
        },
{
    if orb.orb_type.uses_phase() {
        let phase = match parse_phase(name) {
            Ok(phase) => phase,
            Err(e) => {
                return Err(CommandError::Name(e));
            },
        };
        match orb.set_phase_at(phase, now) {
            Ok(()) => Ok(()),
            Err(error) => Err(CommandError::PhaseRefused { name: name.to_owned(), error }),
        }
    } else {
        let status = match parse_status(name) {
            Ok(status) => status,
            Err(e) => {
                return Err(CommandError::Name(e));
            },
        };
        match orb.set_status_at(status, now) {
            Ok(()) => Ok(()),
            Err(error) => Err(CommandError::StatusRefused { name: name.to_owned(), error }),
        }
    }
}

/// The changes that an update command asks for.
#[derive(Debug, Default)]
pub struct Changes {
    pub title: Option<String>,
    pub description: Option<String>,
    pub priority: Option<u8>,
    /// The name of the new status or phase.
    pub status: Option<String>,
    pub defer: bool,
    pub undefer: bool,
    pub add_labels: Vec<String>,
    pub remove_labels: Vec<String>,
    /// A comma-separated list that replaces the labels.
    pub set_labels: Option<String>,
}

/// What [`Changes`] hold.
pub struct ChangesView {
    pub title: Option<Seq<char>>,
    pub description: Option<Seq<char>>,
    pub priority: Option<u8>,
    pub status: Option<Seq<char>>,
    pub defer: bool,
    pub undefer: bool,
    pub add_labels: Seq<Seq<char>>,
    pub remove_labels: Seq<Seq<char>>,
    pub set_labels: Option<Seq<char>>,
}

impl View for Changes {
    type V = ChangesView;

    open spec fn view(&self) -> ChangesView {
        ChangesView {
            title: opt_text(self.title),
            description: opt_text(self.description),
            priority: self.priority,
            status: opt_text(self.status),
            defer: self.defer,
            undefer: self.undefer,
            add_labels: texts(self.add_labels@),
            remove_labels: texts(self.remove_labels@),
            set_labels: opt_text(self.set_labels),
        }
    }
}

/// The labels with those of `more` that are not among them behind them.
pub open spec fn labels_with(labels: Seq<Seq<char>>, more: Seq<Seq<char>>) -> Seq<Seq<char>>
    decreases more.len(),
{
    if more.len() == 0 {
        labels
    } else {
        let before = labels_with(labels, more.drop_last());
        if before.contains(more.last()) {
            before
        } else {
            before.push(more.last())
        }
    }
}

/// The labels without those of `less`.
pub open spec fn labels_without(labels: Seq<Seq<char>>, less: Seq<Seq<char>>) -> Seq<Seq<char>> {
    labels.filter(|label: Seq<char>| !less.contains(label))
}

/// The labels after an update.
pub open spec fn updated_labels(labels: Seq<Seq<char>>, c: ChangesView) -> Seq<Seq<char>> {
    let base = match c.set_labels {
        Some(csv) => normalized(pieces(csv, ',')),
        None => labels,
    };
    labels_without(labels_with(base, normalized(c.add_labels)), normalized(c.remove_labels))
}

/// The orb with the text and the priority that an update asks for.
pub open spec fn with_fields(orb: OrbView, c: ChangesView) -> OrbView {
    OrbView {
        title: match c.title {
            Some(title) => title,
            None => orb.title,
        },
        description: match c.description {
            Some(description) => description,
            None => orb.description,
        },
        priority: match c.priority {
            Some(priority) => clamped(priority),
            None => orb.priority,
        },
        ..orb
    }
}

/// The orb with the deferral that an update asks for.
pub open spec fn with_deferral(orb: OrbView, c: ChangesView, now: Timestamp) -> Result<
    OrbView,
    CommandErrorView,
> {
    if c.defer && c.undefer {
        Err(CommandErrorView::DeferAndUndefer)
    } else if c.defer {
        if orb.can_defer() {
            Ok(orb.deferred(now))
        } else {
            Err(CommandErrorView::NotDeferrable(state_label(orb)))
        }
    } else if c.undefer {
        Ok(orb.undeferred(now))
    } else {
        Ok(orb)
    }
}

/// The orb with the labels that an update asks for, and the hash of its content.
pub open spec fn with_labels(orb: OrbView, c: ChangesView) -> OrbView {
    let labelled = OrbView { labels: updated_labels(orb.labels, c), ..orb };
    OrbView { content_hash: Some(labelled.hash()), ..labelled }
}

/// What an update makes of an orb: the orb with its new text and priority, brought to the
/// new state, then deferred or undeferred, then with its new labels and hash.
pub open spec fn updated(orb: OrbView, c: ChangesView, now: Timestamp) -> Result<
    OrbView,
    CommandErrorView,
> {
    if c.defer && c.undefer {
        Err(CommandErrorView::DeferAndUndefer)
    } else {
        let edited = with_fields(orb, c);
        let moved = match c.status {
            Some(name) => brought_to(edited, name, now),
            None => Ok(edited),
        };
        match moved {
            Ok(o) => match with_deferral(o, c, now) {
                Ok(o) => Ok(with_labels(o, c)),
                Err(e) => Err(e),
            },
            Err(e) => Err(e),
        }
    }
}

/// Adds to the labels those that are not among them.
fn add_labels(labels: &mut Vec<String>, more: &Vec<String>)
    ensures
        texts(final(labels)@) == labels_with(texts(old(labels)@), texts(more@)),
{
    let ghost given = texts(more@);
    let ghost before = texts(labels@);
    let mut i: usize = 0;
    assert(given.take(0) =~= Seq::empty());
    while i < more.len()
        invariant
            i <= more@.len(),
            given == texts(more@),
            texts(labels@) == labels_with(before, given.take(i as int)),
        decreases more@.len() - i,
    {
        let ghost here = texts(labels@);
        assert(given.take(i + 1).drop_last() =~= given.take(i as int));
        if !contains_text(labels, more[i].as_str()) {
            labels.push(more[i].clone());
            assert(texts(labels@) =~= here.push(given[i as int]));
        }
        i += 1;
    }
    assert(given.take(more@.len() as int) =~= given);
}

/// Drops from the labels those of `less`.
fn remove_labels(labels: &Vec<String>, less: &Vec<String>) -> (r: Vec<String>)
    ensures
        texts(r@) == labels_without(texts(labels@), texts(less@)),
{
    let ghost given = texts(labels@);
    let ghost pred = |label: Seq<char>| !texts(less@).contains(label);
    let mut r: Vec<String> = Vec::new();
    let mut i: usize = 0;
    proof {
        reveal(Seq::filter);
        assert(given.take(0) =~= Seq::empty());
        assert(texts(r@) =~= Seq::empty());
    }
    while i < labels.len()
        invariant
            i <= labels@.len(),
            given == texts(labels@),
            pred == (|label: Seq<char>| !texts(less@).contains(label)),
            texts(r@) == given.take(i as int).filter(pred),
        decreases labels@.len() - i,
    {
        let ghost here = texts(r@);
        proof {
            reveal(Seq::filter);
            assert(given.take(i + 1).drop_last() =~= given.take(i as int));
        }
        if !contains_text(less, labels[i].as_str()) {
            r.push(labels[i].clone());
            assert(texts(r@) =~= here.push(given[i as int]));
        }
        i += 1;
    }
    assert(given.take(labels@.len() as int) =~= given);
    r
}

/// Makes the changes to the orb, at `now`.
///
/// # Errors
///
/// `DeferAndUndefer` if both are asked for; what [`apply_lifecycle`] gives for the new state;
/// and then `NotDeferrable` if the orb is to be deferred and cannot be.
pub fn update_orb(orb: Orb, changes: &Changes, now: Timestamp) -> (r: Result<Orb, CommandError>)
    ensures
        match r {
            Ok(o) => updated(orb@, changes@, now) == Ok::<OrbView, CommandErrorView>(o@),
            Err(e) => updated(orb@, changes@, now) == Err::<OrbView, CommandErrorView>(e@),
        },
{
    if changes.defer && changes.undefer {
        return Err(CommandError::DeferAndUndefer);
    }
    let mut o = orb;
    if let Some(title) = &changes.title {
        o.title = title.clone();
    }
    if let Some(description) = &changes.description {
        o.description = description.clone();
    }
    if let Some(priority) = changes.priority {
        o.priority = clamp_priority(priority);
    }
    assert(o@ =~= with_fields(orb@, changes@));
    if let Some(name) = &changes.status {
        if let Err(e) = apply_lifecycle(&mut o, name.as_str(), now) {
            return Err(e);
        }
    }
    if changes.defer && !o.defer_at(now) {
        return Err(CommandError::NotDeferrable(lifecycle_label(&o).to_owned()));
    }
    if changes.undefer {
        o.undefer_at(now);
    }
    let ghost here = o@;
    if let Some(csv) = &changes.set_labels {
        let parts = split_csv(csv.as_str());
        o.labels = normalize_labels(&parts);
    }
    let more = normalize_labels(&changes.add_labels);
    let mut labels = clone_texts(&o.labels);
    add_labels(&mut labels, &more);
    let less = normalize_labels(&changes.remove_labels);
    o.labels = remove_labels(&labels, &less);
    o.update_content_hash();
    assert(o@ =~= with_labels(here, changes@));
    Ok(o)
}

/// What a command that changes one orb comes to.
pub open spec fn outcome(r: Result<Orb, CommandError>) -> Result<OrbView, CommandErrorView> {
    match r {
        Ok(o) => Ok(o@),
        Err(e) => Err(e@),
    }
}

/// The store after a command that writes its orb if it succeeds.
pub open spec fn written(store: OrbStoreView, r: Result<OrbView, CommandErrorView>) -> OrbStoreView {
    match r {
        Ok(o) => with_record(store, o),
        Err(_) => store,
    }
}

/// The orb with the identifier.
pub open spec fn fetched(store: OrbStoreView, id: Seq<char>) -> Result<OrbView, CommandErrorView> {
    match store.find(id) {
        Some(o) => Ok(o),
        None => Err(CommandErrorView::NotFound(id)),
    }
}

/// Loads the orb with the identifier.
///
/// # Errors
///
/// `NotFound` if there is none.
pub fn load_orb(store: &OrbStore, id: &str) -> (r: Result<Orb, CommandError>)
    ensures
        outcome(r) == fetched(store@, id@),
{
    match store.load_by_id(&OrbId::from_raw(id)) {
        Some(o) => Ok(o),
        None => Err(CommandError::NotFound(id.to_owned())),
    }
}

/// What an update of the orb with the identifier comes to.
pub open spec fn update_outcome(
    store: OrbStoreView,
    id: Seq<char>,
    c: ChangesView,
    now: Timestamp,
) -> Result<OrbView, CommandErrorView> {
    if c.defer && c.undefer {
        Err(CommandErrorView::DeferAndUndefer)
    } else {
        match fetched(store, id) {
            Ok(o) => updated(o, c, now),
            Err(e) => Err(e),
        }
    }
}

/// Updates the orb with the identifier.
///
/// # Errors
///
/// As for [`cmd_update_at`].
pub fn cmd_update(store: &mut OrbStore, id: &str, changes: &Changes) -> (r: Result<
    Orb,
    CommandError,
>)
    ensures
        exists|now: Timestamp|
            outcome(r) == #[trigger] update_outcome(old(store)@, id@, changes@, now),
        final(store)@ == written(old(store)@, outcome(r)),
{
    let now = utc_now();
    cmd_update_at(store, id, changes, now)
}

/// Updates the orb with the identifier at `now`.
///
/// # Errors
///
/// `DeferAndUndefer` if both are asked for, `NotFound` if there is no such orb, and else as
/// for [`update_orb`]. Nothing is then written.
pub fn cmd_update_at(store: &mut OrbStore, id: &str, changes: &Changes, now: Timestamp) -> (r:
    Result<Orb, CommandError>)
    ensures
        outcome(r) == update_outcome(old(store)@, id@, changes@, now),
        final(store)@ == written(old(store)@, outcome(r)),
{
    if changes.defer && changes.undefer {
        return Err(CommandError::DeferAndUndefer);
    }
    let orb = match load_orb(store, id) {
        Ok(orb) => orb,
        Err(e) => {
            return Err(e);
        },
    };
    match update_orb(orb, changes, now) {
        Ok(o) => {
            store.update(&o);
            Ok(o)
        },
        Err(e) => Err(e),
    }
}

/// What deleting the orb with the identifier comes to.
pub open spec fn delete_outcome(
    store: OrbStoreView,
    id: Seq<char>,
    reason: Option<Seq<char>>,
    now: Timestamp,
) -> Result<OrbView, CommandErrorView> {
    match fetched(store, id) {
        Ok(o) => Ok(o.tombstoned(reason, now)),
        Err(e) => Err(e),
    }
}

/// Soft-deletes the orb with the identifier.
///
/// # Errors
///
/// As for [`cmd_delete_at`].
pub fn cmd_delete(store: &mut OrbStore, id: &str, reason: Option<String>) -> (r: Result<
    Orb,
    CommandError,
>)
    ensures
        exists|now: Timestamp|
            outcome(r) == #[trigger] delete_outcome(old(store)@, id@, opt_text(reason), now),
        final(store)@ == written(old(store)@, outcome(r)),
{
    let now = utc_now();
    cmd_delete_at(store, id, reason, now)
}

/// Soft-deletes the orb with the identifier at `now`.
///
/// # Errors
///
/// `NotFound` if there is no such orb. Nothing is then written.
pub fn cmd_delete_at(store: &mut OrbStore, id: &str, reason: Option<String>, now: Timestamp) -> (r:
    Result<Orb, CommandError>)
    ensures
        outcome(r) == delete_outcome(old(store)@, id@, opt_text(reason), now),
        final(store)@ == written(old(store)@, outcome(r)),
{
    let mut orb = match load_orb(store, id) {
        Ok(orb) => orb,
        Err(e) => {
            return Err(e);
        },
    };
    orb.tombstone_at(reason, now);
    store.update(&orb);
    Ok(orb)
}

/// Whether a list command with the given filters shows the orb. The state is an effective
/// status or an exact status or phase, and one of the labels is enough.
pub open spec fn is_listed(
    orb: OrbView,
    orb_type: Option<OrbTypeView>,
    state: Option<LifecycleFilter>,
    labels: Seq<Seq<char>>,
) -> bool {
    &&& orb_type is Some ==> orb_type == Some(orb.orb_type)
    &&& state matches Some(f) ==> matches_effective(orb, f) || matches_filter(orb, f)
    &&& labels.len() > 0 ==> shares_label(orb.labels, labels)
}

/// Whether the lists have a label in common.
pub open spec fn shares_label(a: Seq<Seq<char>>, b: Seq<Seq<char>>) -> bool {
    exists|i: int| 0 <= i < b.len() && a.contains(#[trigger] b[i])
}

/// Whether the lists have a label in common.
fn share_label(a: &Vec<String>, b: &Vec<String>) -> (r: bool)
    ensures
        r == shares_label(texts(a@), texts(b@)),
{
    let mut i: usize = 0;
    while i < b.len()
        invariant
            i <= b@.len(),
            forall|j: int| 0 <= j < i ==> !texts(a@).contains(#[trigger] texts(b@)[j]),
        decreases b@.len() - i,
    {
        assert(texts(b@)[i as int] == b@[i as int]@);
        if contains_text(a, b[i].as_str()) {
            return true;
        }
        i += 1;
    }
    false
}

/// What an optional type holds.
pub open spec fn type_of(o: &Option<OrbType>) -> Option<OrbTypeView> {
    match o {
        Some(t) => Some(t@),
        None => None,
    }
}

/// Whether the orb passes the filters.
fn lists(
    orb: &Orb,
    orb_type: &Option<OrbType>,
    state: Option<LifecycleFilter>,
    labels: &Vec<String>,
) -> (r: bool)
    ensures
        r == is_listed(orb@, type_of(orb_type), state, texts(labels@)),
{
    let of_type = match orb_type {
        Some(t) => orb.orb_type == *t,
        None => true,
    };
    let in_state = match state {
        Some(f) => effective_matches(orb, f) || lifecycle_matches(orb, f),
        None => true,
    };
    of_type && in_state && (labels.len() == 0 || share_label(&orb.labels, labels))
}

/// Lists the orbs that pass the filters, oldest first: all those that are not tombstoned, or
/// all, of the given type, in the given state and with one of the given labels.
///
/// # Errors
///
/// `UnknownPhase` if there is neither a status nor a phase with the name that is given.
pub fn cmd_list(
    store: &OrbStore,
    orb_type: Option<&str>,
    state: Option<&str>,
    all: bool,
    labels: &Vec<String>,
) -> (r: Result<Vec<Orb>, NameError>)
    ensures
        ({
            let wanted = match opt_str(orb_type) {
                Some(name) => Some(type_named(name)),
                None => None,
            };
            let filter = match opt_str(state) {
                Some(name) => filter_named(name),
                None => None,
            };
            let stored = if all {
                store@.everything()
            } else {
                store@.live()
            };
            match r {
                Ok(orbs) => (state is Some ==> filter is Some) && views(orbs@) == stored.filter(
                    |o: OrbView| is_listed(o, wanted, filter, normalized(texts(labels@))),
                ),
                Err(e) => state matches Some(name) && filter is None && e@
                    == NameErrorView::UnknownPhase(lowered(name@)),
            }
        }),
{
    let orbs = if all {
        store.load_all_including_tombstoned()
    } else {
        store.load_all()
    };
    let wanted = match orb_type {
        Some(name) => Some(parse_orb_type(name)),
        None => None,
    };
    let filter = match state {
        Some(name) => match parse_lifecycle_filter(name) {
            Ok(f) => Some(f),
            Err(e) => {
                return Err(e);
            },
        },
        None => None,
    };
    let picked = normalize_labels(labels);
    let ghost pred = |o: OrbView| is_listed(o, type_of(&wanted), filter, texts(picked@));
    let f = |o: &Orb| -> (b: bool)
        ensures
            b == is_listed(o@, type_of(&wanted), filter, texts(picked@)),
    {
        lists(o, &wanted, filter, &picked)
    };
    Ok(keep(&orbs, f, Ghost(pred)))
}

/// Why an edge was not added.
#[derive(Debug)]
pub enum EdgeError {
    Name(NameError),
    Refused(DepError),
}

/// Adds an edge of the type with the given name.
///
/// # Errors
///
/// As for [`cmd_dep_add_at`].
pub fn cmd_dep_add(store: &mut DepStore, from: &str, to: &str, edge_type: &str) -> (r: Result<
    EdgeType,
    EdgeError,
>)
    ensures
        exists|now: Timestamp|
            is_added(old(store)@, final(store)@, r, #[trigger] named_edge(from@, to@, edge_type@, now), edge_type@),
{
    let now = utc_now();
    let r = cmd_dep_add_at(store, from, to, edge_type, now);
    assert(is_added(
        old(store)@,
        store@,
        r,
        named_edge(from@, to@, edge_type@, now),
        edge_type@,
    ));
    r
}

/// The edge of the type with the given name, as made at `now`.
pub open spec fn named_edge(
    from: Seq<char>,
    to: Seq<char>,
    edge_type: Seq<char>,
    now: Timestamp,
) -> DepEdgeView {
    fresh_edge(from, to, edge_type_named(edge_type)->0, now)
}

/// What adding an edge of the type with the given name comes to: the edge is in the store,
/// unless there is no such type or it would close a cycle.
pub open spec fn is_added(
    before: DepStoreView,
    after: DepStoreView,
    r: Result<EdgeType, EdgeError>,
    edge: DepEdgeView,
    name: Seq<char>,
) -> bool {
    match edge_type_named(name) {
        None => after == before && (r matches Err(EdgeError::Name(e)) && e@
            == NameErrorView::UnknownEdgeType(lowered(name))),
        Some(t) => if before.closes_cycle(edge) {
            &&& after == before
            &&& r matches Err(EdgeError::Refused(DepError::CycleDetected { cycle }))
            &&& is_shortest_cycle(before.graph(), arc(edge).0, arc(edge).1, views(cycle@))
        } else {
            after == before.with(edge) && r == Ok::<EdgeType, EdgeError>(t)
        },
    }
}

/// Adds an edge of the type with the given name at `now`, and gives the type back.
///
/// # Errors
///
/// `Name` if there is no edge type with that name; `Refused` with a shortest cycle if the
/// edge would close one. The store is then left as it was.
pub fn cmd_dep_add_at(store: &mut DepStore, from: &str, to: &str, edge_type: &str, now: Timestamp) -> (r:
    Result<EdgeType, EdgeError>)
    ensures
        is_added(
            old(store)@,
            final(store)@,
            r,
            named_edge(from@, to@, edge_type@, now),
            edge_type@,
        ),
{
    let t = match parse_edge_type(edge_type) {
        Ok(t) => t,
        Err(e) => {
            return Err(EdgeError::Name(e));
        },
    };
    let edge = DepEdge::new_at(OrbId::from_raw(from), OrbId::from_raw(to), t, now);
    match store.add_edge(edge) {
        Ok(()) => Ok(t),
        Err(e) => Err(EdgeError::Refused(e)),
    }
}

/// What removing an edge of the type with the given name comes to: its type, if there was
/// such an edge.
pub open spec fn is_taken_off(
    before: DepStoreView,
    after: DepStoreView,
    r: Result<Option<EdgeType>, NameError>,
    from: Seq<char>,
    to: Seq<char>,
    name: Seq<char>,
    now: Timestamp,
) -> bool {
    match edge_type_named(name) {
        None => after == before && (r matches Err(e) && e@ == NameErrorView::UnknownEdgeType(
            lowered(name),
        )),
        Some(t) => match before.find(from, to, t) {
            Some(e) => after == before.with((DepEdgeView { removed_at: Some(now), ..e })) && r
                == Ok::<Option<EdgeType>, NameError>(Some(t)),
            None => after == before && r == Ok::<Option<EdgeType>, NameError>(None),
        },
    }
}

/// Removes an edge of the type with the given name.
///
/// # Errors
///
/// As for [`cmd_dep_rm_at`].
pub fn cmd_dep_rm(store: &mut DepStore, from: &str, to: &str, edge_type: &str) -> (r: Result<
    Option<EdgeType>,
    NameError,
>)
    ensures
        exists|now: Timestamp| #[trigger]
            is_taken_off(old(store)@, final(store)@, r, from@, to@, edge_type@, now),
{
    let now = utc_now();
    cmd_dep_rm_at(store, from, to, edge_type, now)
}

/// Removes an edge of the type with the given name at `now`, and gives the type back if there
/// was such an edge.
///
/// # Errors
///
/// `UnknownEdgeType` if there is no edge type with that name.
pub fn cmd_dep_rm_at(store: &mut DepStore, from: &str, to: &str, edge_type: &str, now: Timestamp) -> (r:
    Result<Option<EdgeType>, NameError>)
    ensures
        is_taken_off(old(store)@, final(store)@, r, from@, to@, edge_type@, now),
{
    let t = match parse_edge_type(edge_type) {
        Ok(t) => t,
        Err(e) => {
            return Err(e);
        },
    };
    if store.remove_edge_at(&OrbId::from_raw(from), &OrbId::from_raw(to), t, now) {
        Ok(Some(t))
    } else {
        Ok(None)
    }
}

/// The active edges that touch the orb: first those that start at it, then those that lead
/// to it.
pub fn cmd_deps(store: &DepStore, id: &str) -> (r: Vec<DepEdge>)
    ensures
        views(r@) == store@.active().filter(|e: DepEdgeView| e.from == id@)
            + store@.active().filter(|e: DepEdgeView| e.to == id@),
{
    let orb_id = OrbId::from_raw(id);
    let mut edges = store.edges_from(&orb_id);
    let mut more = store.edges_to(&orb_id);
    let ghost first = views(edges@);
    let ghost second = views(more@);
    edges.append(&mut more);
    assert(views(edges@) =~= first + second);
    edges
}

/// A question about the order of work.
#[derive(Debug, Clone, Copy, PartialEq, Eq, Structural)]
pub enum Query {
    Ready,
    Waiting,
    Pipeline,
}

/// The identifiers of the orbs that answer the query.
pub fn cmd_ids_from_query(orbs: &OrbStore, deps: &DepStore, query: Query) -> (r: Vec<OrbId>)
    ensures
        match query {
            Query::Ready => views(r@) == ready_ids(orbs@.live(), deps@.graph()),
            Query::Waiting => views(r@) == waiting_ids(orbs@.live(), deps@.graph()),
            Query::Pipeline => {
                &&& views(r@).no_duplicates()
                &&& forall|id: Seq<char>| #[trigger]
                    views(r@).contains(id) <==> orb_named(orbs@.live(), id) is Some
                &&& exists|m: int| #[trigger]
                    is_schedule(
                        deps@.graph(),
                        views(r@),
                        m,
                        urgency(orbs@.live(), deps@.graph()),
                    )
            },
        },
{
    let all = orbs.load_all();
    match query {
        Query::Ready => deps.ready(all.as_slice()),
        Query::Waiting => deps.waiting(all.as_slice()),
        Query::Pipeline => deps.pipeline(all.as_slice()),
    }
}

/// The tree below the orb with the identifier, from a store that may not have been readable.
///
/// # Errors
///
/// `NotFound` if there is no such orb, or the store cannot be read.
pub fn cmd_tree(store: Option<&OrbStore>, id: &str) -> (r: Result<OrbNode, CommandError>)
    requires
        store matches Some(s) ==> is_tree_below(s@.live(), id@),
    ensures
        store is None ==> (r matches Err(e) && e@ == CommandErrorView::NotFound(id@)),
        store matches Some(s) ==> match r {
            Ok(node) => fetched(s@, id@) == Ok::<OrbView, CommandErrorView>(node.orb@)
                && is_tree_of(node, s@.live(), 0),
            Err(e) => fetched(s@, id@) == Err::<OrbView, CommandErrorView>(e@),
        },
{
    match build_orb_tree_of(store, &OrbId::from_raw(id)) {
        Some(node) => Ok(node),
        None => Err(CommandError::NotFound(id.to_owned())),
    }
}

/// An orb that was created is found under its identifier, as it was made, with the hash of
/// its content; all other orbs stay as they were.
pub proof fn law_create_then_find(
    store: OrbStoreView,
    title: Seq<char>,
    description: Seq<char>,
    orb_type: OrbTypeView,
    priority: u8,
    parent: Option<Seq<char>>,
    root: Option<Seq<char>>,
    draft: bool,
    labels: Seq<Seq<char>>,
    now: Timestamp,
    other: Seq<char>,
)
    ensures
        ({
            let orb = created(
                title,
                description,
                orb_type,
                priority,
                parent,
                root,
                draft,
                labels,
                now,
            );
            let after = with_record(store, orb);
            &&& after.find(orb.id) == Some(orb)
            &&& other != orb.id ==> after.find(other) == store.find(other)
            &&& orb.content_hash == Some(orb.hash())
            &&& orb.lifecycle_fits()
            &&& 1 <= orb.priority <= 5
        }),
{
    let orb = created(title, description, orb_type, priority, parent, root, draft, labels, now);
    crate::orb_store::law_append_then_find(store, orb, other);
}

/// What a store finds under an identifier has that identifier.
proof fn lemma_fetched(store: OrbStoreView, id: Seq<char>)
    ensures
        fetched(store, id) matches Ok(o) ==> o.id == id && !o.is_tombstoned(),
{
    crate::log::lemma_latest::<Orb>(store.log, id);
}

/// An orb that was updated is found under its identifier as it now is, unless it was moved to
/// the tombstone state, with the hash of its content; all other orbs stay as they were. Its
/// identifier, type, parent and time of creation never change.
pub proof fn law_update_then_find(
    store: OrbStoreView,
    id: Seq<char>,
    c: ChangesView,
    now: Timestamp,
    other: Seq<char>,
)
    requires
        update_outcome(store, id, c, now) is Ok,
    ensures
        ({
            let orb = update_outcome(store, id, c, now)->Ok_0;
            let before = store.find(id)->0;
            let after = with_record(store, orb);
            &&& after.find(id) == if orb.is_tombstoned() {
                None
            } else {
                Some(orb)
            }
            &&& other != id ==> after.find(other) == store.find(other)
            &&& orb.content_hash == Some(orb.hash())
            &&& orb.id == id
            &&& orb.orb_type == before.orb_type
            &&& orb.parent_id == before.parent_id
            &&& orb.root_id == before.root_id
            &&& orb.created_at == before.created_at
        }),
{
    let orb = update_outcome(store, id, c, now)->Ok_0;
    lemma_fetched(store, id);
    crate::orb_store::law_append_then_find(store, orb, other);
}

/// An update that asks for nothing changes nothing but the hash of the content.
pub proof fn law_empty_update(orb: OrbView, c: ChangesView, now: Timestamp)
    requires
        c.title is None,
        c.description is None,
        c.priority is None,
        c.status is None,
        !c.defer,
        !c.undefer,
        normalized(c.add_labels).len() == 0,
        normalized(c.remove_labels).len() == 0,
        c.set_labels is None,
    ensures
        updated(orb, c, now) == Ok::<OrbView, CommandErrorView>(
            (OrbView { content_hash: Some(orb.hash()), ..orb }),
        ),
{
    let less = normalized(c.remove_labels);
    assert(labels_with(orb.labels, normalized(c.add_labels)) == orb.labels);
    crate::lists::lemma_filter_all(orb.labels, |label: Seq<char>| !less.contains(label));
    assert(updated_labels(orb.labels, c) == orb.labels);
    assert(with_fields(orb, c) =~= orb);
    assert(with_labels(orb, c) =~= (OrbView { content_hash: Some(orb.hash()), ..orb }));
}

/// A deleted orb is found no more; all other orbs stay as they were.
pub proof fn law_delete_hides(
    store: OrbStoreView,
    id: Seq<char>,
    reason: Option<Seq<char>>,
    now: Timestamp,
    other: Seq<char>,
)
    requires
        delete_outcome(store, id, reason, now) is Ok,
    ensures
        ({
            let after = with_record(store, delete_outcome(store, id, reason, now)->Ok_0);
            &&& after.find(id) is None
            &&& other != id ==> after.find(other) == store.find(other)
        }),
{
    let orb = delete_outcome(store, id, reason, now)->Ok_0;
    lemma_fetched(store, id);
    crate::orb_store::law_append_then_find(store, orb, other);
}

/// What adding labels comes to: both those that were there and the new ones, none twice.
proof fn lemma_labels_with(labels: Seq<Seq<char>>, more: Seq<Seq<char>>)
    ensures
        labels.no_duplicates() ==> labels_with(labels, more).no_duplicates(),
        forall|label: Seq<char>| #[trigger]
            labels_with(labels, more).contains(label) <==> labels.contains(label) || more.contains(
                label,
            ),
    decreases more.len(),
{
    let all = labels_with(labels, more);
    if more.len() > 0 {
        let front = more.drop_last();
        lemma_labels_with(labels, front);
        let before = labels_with(labels, front);
        assert forall|label: Seq<char>| #[trigger]
            all.contains(label) <==> labels.contains(label) || more.contains(label) by {
            assert(more.contains(label) <==> front.contains(label) || label == more.last()) by {
                if more.contains(label) {
                    let i = choose|i: int| 0 <= i < more.len() && more[i] == label;
                    if i < front.len() {
                        assert(front[i] == label);
                    }
                }
                if front.contains(label) {
                    let i = choose|i: int| 0 <= i < front.len() && front[i] == label;
                    assert(more[i] == label);
                }
                assert(more[more.len() - 1] == more.last());
            }
            assert(all.contains(label) <==> before.contains(label) || label == more.last()) by {
                if all.contains(label) {
                    let i = choose|i: int| 0 <= i < all.len() && all[i] == label;
                    if i < before.len() {
                        assert(before[i] == label);
                    }
                }
                if before.contains(label) {
                    let i = choose|i: int| 0 <= i < before.len() && before[i] == label;
                    assert(all[i] == label);
                } else if label == more.last() {
                    assert(all[before.len() as int] == label);
                }
            }
        }
    }
}

/// After an update an orb has exactly the labels that it had, or that were set in their
/// place, and those that were added, without those that were removed; none of them comes
/// twice if none did before.
pub proof fn law_updated_labels(labels: Seq<Seq<char>>, c: ChangesView)
    ensures
        labels.no_duplicates() ==> updated_labels(labels, c).no_duplicates(),
        forall|label: Seq<char>| #[trigger]
            updated_labels(labels, c).contains(label) <==> {
                &&& normalized(c.add_labels).contains(label) || match c.set_labels {
                    Some(csv) => normalized(pieces(csv, ',')).contains(label),
                    None => labels.contains(label),
                }
                &&& !normalized(c.remove_labels).contains(label)
            },
{
    let base = match c.set_labels {
        Some(csv) => normalized(pieces(csv, ',')),
        None => labels,
    };
    if let Some(csv) = c.set_labels {
        crate::labels::law_labels(pieces(csv, ','));
    }
    let more = normalized(c.add_labels);
    let less = normalized(c.remove_labels);
    lemma_labels_with(base, more);
    let all = labels_with(base, more);
    crate::lists::lemma_filter(all, |label: Seq<char>| !less.contains(label));
}

/// A new orb has the text and type that it was given, a priority from 1 to 5, and the labels that
/// are left of those given; it starts pending, or as a draft where that is asked for, in a phase
/// if it is an epic or a feature and else in a status. Below a parent its root is the one given,
/// or the parent where none is; a root without a parent is not kept.
pub proof fn law_created(
    title: Seq<char>,
    description: Seq<char>,
    orb_type: OrbTypeView,
    priority: u8,
    parent: Option<Seq<char>>,
    root: Option<Seq<char>>,
    draft: bool,
    labels: Seq<Seq<char>>,
    now: Timestamp,
)
    ensures
        ({
            let o = created(title, description, orb_type, priority, parent, root, draft, labels, now);
            let phased = orb_type == OrbTypeView::Epic || orb_type == OrbTypeView::Feature;
            &&& o.title == title && o.description == description && o.orb_type == orb_type
            &&& o.created_at == now && o.updated_at == now && o.closed_at is None
            &&& o.deleted_at is None
            &&& 1 <= o.priority <= 5
            &&& 1 <= priority <= 5 ==> o.priority == priority
            &&& priority == 0 ==> o.priority == 1
            &&& priority > 5 ==> o.priority == 5
            &&& o.parent_id == parent
            &&& parent is None ==> o.root_id is None
            &&& parent is Some && root is Some ==> o.root_id == root
            &&& parent is Some && root is None ==> o.root_id == parent
            &&& o.labels == normalized(labels)
            &&& phased && draft ==> o.phase == Some(OrbPhase::Draft) && o.status is None
            &&& phased && !draft ==> o.phase == Some(OrbPhase::Pending) && o.status is None
            &&& !phased && draft ==> o.status == Some(OrbStatus::Draft) && o.phase is None
            &&& !phased && !draft ==> o.status == Some(OrbStatus::Pending) && o.phase is None
            &&& o.content_hash == Some(o.hash())
        }),
{
}

/// A record is written behind all others.
pub proof fn law_written(store: OrbStoreView, orb: OrbView, e: CommandErrorView)
    ensures
        written(store, Ok(orb)).log == store.log + seq![orb],
        written(store, Ok(orb)).path == store.path,
        written(store, Err(e)) == store,
{
    assert(store.log.push(orb) =~= store.log + seq![orb]);
}

/// The state that is named is a phase for epics and features and a status for all others. An
/// unknown name and a move that is not allowed are refused, and else the orb moves.
pub proof fn law_brought_to(
    orb: OrbView,
    name: Seq<char>,
    status: OrbStatus,
    phase: OrbPhase,
    now: Timestamp,
)
    ensures
        ({
            let phased = orb.orb_type == OrbTypeView::Epic || orb.orb_type == OrbTypeView::Feature;
            let r = brought_to(orb, name, now);
            &&& phased && phase_named(name) is None ==> r == Err::<OrbView, CommandErrorView>(
                CommandErrorView::Name(NameErrorView::UnknownPhase(lowered(name))),
            )
            &&& !phased && status_named(name) is None ==> r == Err::<OrbView, CommandErrorView>(
                CommandErrorView::Name(NameErrorView::UnknownStatus(lowered(name))),
            )
            &&& phased && phase_named(name) == Some(phase) ==> {
                &&& r is Ok <==> phase_move_allowed(orb.phase, phase)
                &&& r matches Ok(o) ==> o.phase == Some(phase) && o.status == orb.status
                    && o.updated_at == now
                &&& r matches Err(e) ==> e == (CommandErrorView::PhaseRefused {
                    name,
                    error: phase_error(orb.phase, phase),
                })
            }
            &&& !phased && status_named(name) == Some(status) ==> {
                &&& r is Ok <==> status_move_allowed(orb.status, status)
                &&& r matches Ok(o) ==> o.status == Some(status) && o.phase == orb.phase
                    && o.updated_at == now
                &&& r matches Err(e) ==> e == (CommandErrorView::StatusRefused {
                    name,
                    error: status_error(orb.status, status),
                })
            }
        }),
{
}

/// Deferring and undeferring at once is refused before the orb is looked for.
pub proof fn law_defer_and_undefer(
    store: OrbStoreView,
    id: Seq<char>,
    orb: OrbView,
    c: ChangesView,
    now: Timestamp,
)
    requires
        c.defer,
        c.undefer,
    ensures
        update_outcome(store, id, c, now) == Err::<OrbView, CommandErrorView>(
            CommandErrorView::DeferAndUndefer,
        ),
        updated(orb, c, now) == Err::<OrbView, CommandErrorView>(CommandErrorView::DeferAndUndefer),
{
}

/// An update of an orb that is not there, or is tombstoned, is refused, and so is its deletion.
pub proof fn law_not_found(
    store: OrbStoreView,
    id: Seq<char>,
    c: ChangesView,
    reason: Option<Seq<char>>,
    now: Timestamp,
)
    requires
        store.find(id) is None,
    ensures
        !(c.defer && c.undefer) ==> update_outcome(store, id, c, now) == Err::<
            OrbView,
            CommandErrorView,
        >(CommandErrorView::NotFound(id)),
        delete_outcome(store, id, reason, now) == Err::<OrbView, CommandErrorView>(
            CommandErrorView::NotFound(id),
        ),
{
}

/// An update sets the texts and the priority that it names, the priority within 1 to 5, and
/// keeps those that it does not name; the hash is that of the new content.
pub proof fn law_updated_fields(orb: OrbView, c: ChangesView, now: Timestamp)
    requires
        updated(orb, c, now) is Ok,
    ensures
        ({
            let o = updated(orb, c, now)->Ok_0;
            &&& c.title matches Some(t) ==> o.title == t
            &&& c.title is None ==> o.title == orb.title
            &&& c.description matches Some(d) ==> o.description == d
            &&& c.description is None ==> o.description == orb.description
            &&& c.priority matches Some(p) ==> {
                &&& 1 <= p <= 5 ==> o.priority == p
                &&& p == 0 ==> o.priority == 1
                &&& p > 5 ==> o.priority == 5
            }
            &&& c.priority is None ==> o.priority == orb.priority
            &&& o.labels == updated_labels(orb.labels, c)
            &&& o.content_hash == Some(o.hash())
            &&& o.id == orb.id && o.orb_type == orb.orb_type && o.created_at == orb.created_at
            &&& o.parent_id == orb.parent_id && o.root_id == orb.root_id
            &&& o.design == orb.design && o.acceptance_criteria == orb.acceptance_criteria
            &&& o.scope == orb.scope && o.result == orb.result
            &&& o.revision_count == orb.revision_count && o.delete_reason == orb.delete_reason
        }),
{
}

/// An update without a state and without a deferral leaves the state as it is.
pub proof fn law_update_keeps_state(orb: OrbView, c: ChangesView, now: Timestamp)
    requires
        c.status is None,
        !c.defer,
        !c.undefer,
    ensures
        updated(orb, c, now) is Ok,
        updated(orb, c, now)->Ok_0.status == orb.status,
        updated(orb, c, now)->Ok_0.phase == orb.phase,
        updated(orb, c, now)->Ok_0.updated_at == orb.updated_at,
        updated(orb, c, now)->Ok_0.closed_at == orb.closed_at,
{
}

/// An update to a state without a deferral ends in that state, and is refused exactly as the move
/// to that state is.
pub proof fn law_update_moves(orb: OrbView, c: ChangesView, name: Seq<char>, now: Timestamp)
    requires
        c.status == Some(name),
        !c.defer,
        !c.undefer,
    ensures
        updated(orb, c, now) is Ok <==> brought_to(orb, name, now) is Ok,
        brought_to(orb, name, now) matches Ok(o) ==> updated(orb, c, now)->Ok_0.status == o.status
            && updated(orb, c, now)->Ok_0.phase == o.phase && updated(orb, c, now)->Ok_0.updated_at
            == now && updated(orb, c, now)->Ok_0.closed_at == o.closed_at,
        brought_to(orb, name, now) matches Err(e) ==> updated(orb, c, now) == Err::<
            OrbView,
            CommandErrorView,
        >(e),
{
}

/// An update that moves and defers moves first: it is refused as the move is, else where the
/// state that was reached cannot be deferred, and else ends deferred.
pub proof fn law_update_defers(orb: OrbView, c: ChangesView, name: Seq<char>, now: Timestamp)
    requires
        c.defer,
        !c.undefer,
    ensures
        c.status == Some(name) ==> (brought_to(orb, name, now) matches Err(e) ==> updated(
            orb,
            c,
            now,
        ) == Err::<OrbView, CommandErrorView>(e)),
        c.status == Some(name) ==> (brought_to(orb, name, now) matches Ok(o) ==> {
            &&& updated(orb, c, now) is Ok <==> o.can_defer()
            &&& updated(orb, c, now) matches Err(e) ==> e == CommandErrorView::NotDeferrable(
                state_label(o),
            )
        }),
        c.status is None ==> {
            &&& updated(orb, c, now) is Ok <==> orb.can_defer()
            &&& updated(orb, c, now) matches Err(e) ==> e == CommandErrorView::NotDeferrable(
                state_label(orb),
            )
        },
        updated(orb, c, now) matches Ok(o) ==> {
            &&& o.updated_at == now
            &&& o.status is Some ==> o.status == Some(OrbStatus::Deferred)
            &&& o.status is None ==> o.phase == Some(OrbPhase::Deferred)
        },
{
}

/// An update that undefers never leaves the orb deferred by status, and leaves a state that is
/// not deferred as it is.
pub proof fn law_update_undefers(orb: OrbView, c: ChangesView, now: Timestamp)
    requires
        c.undefer,
        !c.defer,
        c.status is None,
    ensures
        updated(orb, c, now) matches Ok(o) && {
            &&& o.updated_at == now
            &&& orb.status == Some(OrbStatus::Deferred) ==> o.status == Some(OrbStatus::Pending)
            &&& orb.status != Some(OrbStatus::Deferred) ==> o.status == orb.status
            &&& orb.phase != Some(OrbPhase::Deferred) ==> o.phase == orb.phase
        },
{
}

/// New labels come behind those that were there, which keep their places.
pub proof fn law_labels_stay_in_place(labels: Seq<Seq<char>>, more: Seq<Seq<char>>)
    ensures
        labels.len() <= labels_with(labels, more).len(),
        labels_with(labels, more).take(labels.len() as int) == labels,
    decreases more.len(),
{
    if more.len() > 0 {
        law_labels_stay_in_place(labels, more.drop_last());
        let before = labels_with(labels, more.drop_last());
        assert(before.push(more.last()).take(labels.len() as int) =~= before.take(
            labels.len() as int,
        ));
    }
    assert(labels.take(labels.len() as int) =~= labels);
}

/// A list without filters shows every orb; a type shows the orbs of that type alone; a state those
/// that are in it or count as being in it; labels those that have at least one of them. Several
/// filters show what each of them shows.
pub proof fn law_listed(
    orb: OrbView,
    orb_type: OrbTypeView,
    state: LifecycleFilter,
    labels: Seq<Seq<char>>,
    t: Option<OrbTypeView>,
    f: Option<LifecycleFilter>,
)
    ensures
        is_listed(orb, None, None, Seq::empty()),
        is_listed(orb, Some(orb_type), None, Seq::empty()) <==> orb.orb_type == orb_type,
        is_listed(orb, None, Some(state), Seq::empty()) <==> matches_filter(orb, state)
            || matches_effective(orb, state),
        labels.len() > 0 ==> (is_listed(orb, None, None, labels) <==> exists|label: Seq<char>|
            labels.contains(label) && #[trigger] orb.labels.contains(label)),
        is_listed(orb, t, f, labels) <==> is_listed(orb, t, None, Seq::empty()) && is_listed(
            orb,
            None,
            f,
            Seq::empty(),
        ) && is_listed(orb, None, None, labels),
{
    if labels.len() > 0 {
        if exists|label: Seq<char>| labels.contains(label) && #[trigger] orb.labels.contains(label) {
            let label = choose|label: Seq<char>|
                labels.contains(label) && #[trigger] orb.labels.contains(label);
            let i = choose|i: int| 0 <= i < labels.len() && labels[i] == label;
            assert(orb.labels.contains(labels[i]));
        }
        if is_listed(orb, None, None, labels) {
            let i = choose|i: int| 0 <= i < labels.len() && orb.labels.contains(#[trigger] labels[i]);
            assert(labels.contains(labels[i]));
        }
    }
}

/// An edge that is added leads from the one orb to the other, has the type of the name, and is
/// active.
pub proof fn law_named_edge(
    from: Seq<char>,
    to: Seq<char>,
    name: Seq<char>,
    edge_type: EdgeType,
    now: Timestamp,
)
    requires
        edge_type_named(name) == Some(edge_type),
    ensures
        ({
            let e = named_edge(from, to, name, now);
            &&& e.from == from && e.to == to && e.edge_type == edge_type
            &&& e.created_at == now && e.removed_at is None
        }),
{
}

/// An edge is added exactly if its type has a name and it closes no cycle; it is then behind all
/// other records, and the store is else left as it was.
pub proof fn law_added(
    before: DepStoreView,
    after: DepStoreView,
    r: Result<EdgeType, EdgeError>,
    edge: DepEdgeView,
    name: Seq<char>,
)
    requires
        is_added(before, after, r, edge, name),
    ensures
        r is Ok <==> edge_type_named(name) is Some && !before.closes_cycle(edge),
        r is Ok ==> r->Ok_0 == edge_type_named(name)->0 && after.log == before.log + seq![edge],
        r is Err ==> after == before,
        edge_type_named(name) is None ==> r->Err_0 is Name,
        edge_type_named(name) is Some && before.closes_cycle(edge) ==> r->Err_0 is Refused,
{
    assert(before.log.push(edge) =~= before.log + seq![edge]);
}

/// An edge is taken off by a record of it that says when it was removed.
pub proof fn law_taken_off(
    before: DepStoreView,
    after: DepStoreView,
    r: Result<Option<EdgeType>, NameError>,
    from: Seq<char>,
    to: Seq<char>,
    name: Seq<char>,
    now: Timestamp,
)
    requires
        is_taken_off(before, after, r, from, to, name, now),
    ensures
        r is Err <==> edge_type_named(name) is None,
        r is Err || r->Ok_0 is None ==> after == before,
        r is Ok ==> (r->Ok_0 is Some <==> before.find(from, to, edge_type_named(name)->0) is Some),
        r is Ok && r->Ok_0 is Some ==> {
            &&& r->Ok_0 == edge_type_named(name)
            &&& after.log.len() == before.log.len() + 1
            &&& after.log.drop_last() == before.log
            &&& after.log.last().removed_at == Some(now)
            &&& after.log.last().from == before.find(from, to, edge_type_named(name)->0)->0.from
            &&& after.log.last().to == before.find(from, to, edge_type_named(name)->0)->0.to
            &&& after.log.last().edge_type == before.find(
                from,
                to,
                edge_type_named(name)->0,
            )->0.edge_type
        },
{
    if r is Ok && r->Ok_0 is Some {
        assert(after.log.drop_last() =~= before.log);
    }
}

/// What is said of a command that did not do its work.
pub proof fn law_command_messages(id: Seq<char>, e: NameErrorView, error: TransitionError)
    ensures
        command_message(CommandErrorView::Name(e)) == name_message(e),
        command_message(CommandErrorView::DeferAndUndefer)
            == "--defer and --undefer cannot be used together"@,
        command_message(CommandErrorView::NotFound(id)) == "orb not found: "@ + id,
        command_message(CommandErrorView::NotDeferrable(id)) == "orb cannot be deferred from "@
            + id,
        command_message((CommandErrorView::StatusRefused { name: id, error }))
            == "failed to set status to "@ + id,
        command_message((CommandErrorView::PhaseRefused { name: id, error }))
            == "failed to set phase to "@ + id,
        command_cause((CommandErrorView::StatusRefused { name: id, error })) == Some(
            transition_message(error),
        ),
        command_cause((CommandErrorView::PhaseRefused { name: id, error })) == Some(
            transition_message(error),
        ),
        command_cause(CommandErrorView::Name(e)) is None,
        command_cause(CommandErrorView::DeferAndUndefer) is None,
        command_cause(CommandErrorView::NotFound(id)) is None,
        command_cause(CommandErrorView::NotDeferrable(id)) is None,
{
}

/// Labels that are left after others were taken away keep their order.
pub proof fn law_labels_without(labels: Seq<Seq<char>>, less: Seq<Seq<char>>, a: int, b: int)
    requires
        0 <= a < b < labels_without(labels, less).len(),
    ensures
        exists|i: int, j: int|
            0 <= i < j < labels.len() && #[trigger] labels[i] == labels_without(labels, less)[a]
                && #[trigger] labels[j] == labels_without(labels, less)[b],
        !less.contains(labels_without(labels, less)[a]),
{
    let pred = |label: Seq<char>| !less.contains(label);
    crate::lists::lemma_filter(labels, pred);
    let kept = labels.filter(pred);
    assert(pred(kept[a]));
    assert(crate::lists::in_order(labels, kept[a], kept[b]));
}

} // verus!

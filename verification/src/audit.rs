//! Audit events and comments.

use vstd::prelude::*;

use crate::audit_store::{AuditStore, AuditStoreView};
use crate::dated::Dated;
use crate::digits::{decimal, decimal_text};
use crate::id::{opt_str, OrbId};
use crate::log::Duplicate;
use crate::orb::{phase_slug, status_slug, OrbPhase, OrbStatus};
use crate::text::{clone_opt_text, concat, opt_text};
use crate::time::{utc_now, Timestamp};
use crate::uuid::{is_random, Uuid};

verus! {

/// Types of audit events that can be logged.
#[derive(Debug, Clone, Copy, PartialEq, Eq, Structural)]
pub enum EventType {
    Created,
    StatusChanged,
    PhaseChanged,
    PriorityChanged,
    Assigned,
    Commented,
    DepAdded,
    DepRemoved,
    Deferred,
    Undeferred,
    Tombstoned,
    ConfidenceRecorded,
}

/// A single audit event recording a mutation on an orb.
#[derive(Debug)]
pub struct AuditEvent {
    pub id: Uuid,
    pub orb_id: OrbId,
    pub event_type: EventType,
    pub timestamp: Timestamp,
    pub actor: String,
    pub details: Option<String>,
}

/// What an [`AuditEvent`] holds.
pub struct AuditEventView {
    pub id: Uuid,
    pub orb_id: Seq<char>,
    pub event_type: EventType,
    pub timestamp: Timestamp,
    pub actor: Seq<char>,
    pub details: Option<Seq<char>>,
}

impl View for AuditEvent {
    type V = AuditEventView;

    open spec fn view(&self) -> AuditEventView {
        AuditEventView {
            id: self.id,
            orb_id: self.orb_id@,
            event_type: self.event_type,
            timestamp: self.timestamp,
            actor: self.actor@,
            details: opt_text(self.details),
        }
    }
}

impl Clone for AuditEvent {
    fn clone(&self) -> (r: AuditEvent)
        ensures
            r@ == self@,
    {
        AuditEvent {
            id: self.id,
            orb_id: self.orb_id.clone(),
            event_type: self.event_type,
            timestamp: self.timestamp,
            actor: self.actor.clone(),
            details: clone_opt_text(&self.details),
        }
    }
}

impl Duplicate for AuditEvent {
    fn duplicate(&self) -> (r: AuditEvent) {
        self.clone()
    }
}

impl Dated for AuditEvent {
    open spec fn time(v: AuditEventView) -> Timestamp {
        v.timestamp
    }

    fn time_of(&self) -> (t: Timestamp) {
        self.timestamp
    }
}

impl AuditEvent {
    /// Creates a new audit event with a generated ID and current timestamp.
    pub fn new(orb_id: OrbId, event_type: EventType, actor: &str, details: Option<String>) -> (e:
        AuditEvent)
        ensures
            e@ == (AuditEventView {
                id: e.id,
                orb_id: orb_id@,
                event_type,
                timestamp: e.timestamp,
                actor: actor@,
                details: opt_text(details),
            }),
            is_random(e.id.bits),
    {
        AuditEvent::new_at(Uuid::new_v4(), orb_id, event_type, actor, details, utc_now())
    }

    /// Creates an audit event with the given ID, as made at `now`.
    pub fn new_at(
        id: Uuid,
        orb_id: OrbId,
        event_type: EventType,
        actor: &str,
        details: Option<String>,
        now: Timestamp,
    ) -> (e: AuditEvent)
        ensures
            e@ == (AuditEventView {
                id,
                orb_id: orb_id@,
                event_type,
                timestamp: now,
                actor: actor@,
                details: opt_text(details),
            }),
    {
        AuditEvent { id, orb_id, event_type, timestamp: now, actor: actor.to_owned(), details }
    }
}

/// A comment attached to an orb.
#[derive(Debug)]
pub struct Comment {
    pub id: Uuid,
    pub orb_id: OrbId,
    pub author: String,
    pub body: String,
    pub created_at: Timestamp,
}

/// What a [`Comment`] holds.
pub struct CommentView {
    pub id: Uuid,
    pub orb_id: Seq<char>,
    pub author: Seq<char>,
    pub body: Seq<char>,
    pub created_at: Timestamp,
}

impl View for Comment {
    type V = CommentView;

    open spec fn view(&self) -> CommentView {
        CommentView {
            id: self.id,
            orb_id: self.orb_id@,
            author: self.author@,
            body: self.body@,
            created_at: self.created_at,
        }
    }
}

impl Clone for Comment {
    fn clone(&self) -> (r: Comment)
        ensures
            r@ == self@,
    {
        Comment {
            id: self.id,
            orb_id: self.orb_id.clone(),
            author: self.author.clone(),
            body: self.body.clone(),
            created_at: self.created_at,
        }
    }
}

impl Duplicate for Comment {
    fn duplicate(&self) -> (r: Comment) {
        self.clone()
    }
}

impl Dated for Comment {
    open spec fn time(v: CommentView) -> Timestamp {
        v.created_at
    }

    fn time_of(&self) -> (t: Timestamp) {
        self.created_at
    }
}

impl Comment {
    /// Creates a new comment with a generated ID and current timestamp.
    pub fn new(orb_id: OrbId, author: &str, body: &str) -> (c: Comment)
        ensures
            c@ == (CommentView {
                id: c.id,
                orb_id: orb_id@,
                author: author@,
                body: body@,
                created_at: c.created_at,
            }),
            is_random(c.id.bits),
    {
        Comment::new_at(Uuid::new_v4(), orb_id, author, body, utc_now())
    }

    /// Creates a comment with the given ID, as made at `now`.
    pub fn new_at(id: Uuid, orb_id: OrbId, author: &str, body: &str, now: Timestamp) -> (c: Comment)
        ensures
            c@ == (CommentView {
                id,
                orb_id: orb_id@,
                author: author@,
                body: body@,
                created_at: now,
            }),
    {
        Comment { id, orb_id, author: author.to_owned(), body: body.to_owned(), created_at: now }
    }
}

/// Whether `after` is the store `before` with one more event, which has a random ID and any
/// time, and for the rest is as given.
pub open spec fn is_logged(
    before: AuditStoreView,
    after: AuditStoreView,
    orb_id: Seq<char>,
    event_type: EventType,
    actor: Seq<char>,
    details: Option<Seq<char>>,
) -> bool {
    let e = after.events.last();
    &&& after == before.with_event(e)
    &&& is_random(e.id.bits)
    &&& e == (AuditEventView {
        id: e.id,
        orb_id,
        event_type,
        timestamp: e.timestamp,
        actor,
        details,
    })
}

/// Logs an event.
fn log(
    store: &mut AuditStore,
    orb_id: &OrbId,
    event_type: EventType,
    actor: &str,
    details: Option<String>,
)
    ensures
        is_logged(old(store)@, final(store)@, orb_id@, event_type, actor@, opt_text(details)),
{
    let event = AuditEvent::new(orb_id.clone(), event_type, actor, details);
    store.log_event(&event);
}

/// Whether JSON text holds the character as it is.
pub open spec fn is_plain(c: char) -> bool {
    c != '"' && c != '\\' && c >= ' '
}

/// The JSON text of a string, from `serde_json::Value` and its `Display`: the string between
/// quotes, where no character in it has to be escaped.
#[verifier::external_body]
fn json_text(s: &str) -> (r: String)
    requires
        forall|i: int| 0 <= i < s@.len() ==> is_plain(#[trigger] s@[i]),
    ensures
        r@ == seq!['"'] + s@ + seq!['"'],
{
    serde_json::Value::String(s.to_owned()).to_string()
}

/// No character in the name of a status has to be escaped.
proof fn lemma_status_plain(status: OrbStatus)
    ensures
        forall|i: int|
            0 <= i < status_slug(status).len() ==> is_plain(#[trigger] status_slug(status)[i]),
{
    match status {
        OrbStatus::Draft => {
            reveal_strlit("draft");
        },
        OrbStatus::Pending => {
            reveal_strlit("pending");
        },
        OrbStatus::Active => {
            reveal_strlit("active");
        },
        OrbStatus::Review => {
            reveal_strlit("review");
        },
        OrbStatus::Done => {
            reveal_strlit("done");
        },
        OrbStatus::Failed => {
            reveal_strlit("failed");
        },
        OrbStatus::Cancelled => {
            reveal_strlit("cancelled");
        },
        OrbStatus::Deferred => {
            reveal_strlit("deferred");
        },
        OrbStatus::Tombstone => {
            reveal_strlit("tombstone");
        },
    }
}

/// No character in the name of a phase has to be escaped.
proof fn lemma_phase_plain(phase: OrbPhase)
    ensures
        forall|i: int|
            0 <= i < phase_slug(phase).len() ==> is_plain(#[trigger] phase_slug(phase)[i]),
{
    match phase {
        OrbPhase::Draft => {
            reveal_strlit("draft");
        },
        OrbPhase::Pending => {
            reveal_strlit("pending");
        },
        OrbPhase::Speccing => {
            reveal_strlit("speccing");
        },
        OrbPhase::Decomposing => {
            reveal_strlit("decomposing");
        },
        OrbPhase::Refining => {
            reveal_strlit("refining");
        },
        OrbPhase::Review => {
            reveal_strlit("review");
        },
        OrbPhase::Waiting => {
            reveal_strlit("waiting");
        },
        OrbPhase::Executing => {
            reveal_strlit("executing");
        },
        OrbPhase::Reevaluating => {
            reveal_strlit("reevaluating");
        },
        OrbPhase::Done => {
            reveal_strlit("done");
        },
        OrbPhase::Failed => {
            reveal_strlit("failed");
        },
        OrbPhase::Cancelled => {
            reveal_strlit("cancelled");
        },
        OrbPhase::Deferred => {
            reveal_strlit("deferred");
        },
        OrbPhase::Tombstone => {
            reveal_strlit("tombstone");
        },
    }
}

/// The text of a change from one quoted name to another.
pub open spec fn quoted_change(old_name: Seq<char>, new_name: Seq<char>) -> Seq<char> {
    seq!['"'] + old_name + seq!['"'] + " -> "@ + seq!['"'] + new_name + seq!['"']
}

/// The text of a change from one text to another.
fn change_text(old_text: &str, new_text: &str) -> (s: String)
    ensures
        s@ == old_text@ + " -> "@ + new_text@,
{
    let mut s = old_text.to_owned();
    s.append(" -> ");
    s.append(new_text);
    s
}

/// Logs a status change event.
pub fn log_status_change(
    store: &mut AuditStore,
    orb_id: &OrbId,
    old_status: OrbStatus,
    new_status: OrbStatus,
    actor: &str,
)
    ensures
        is_logged(
            old(store)@,
            final(store)@,
            orb_id@,
            EventType::StatusChanged,
            actor@,
            Some(quoted_change(status_slug(old_status), status_slug(new_status))),
        ),
{
    proof {
        lemma_status_plain(old_status);
        lemma_status_plain(new_status);
    }
    let from = json_text(old_status.slug());
    let to = json_text(new_status.slug());
    let details = change_text(from.as_str(), to.as_str());
    assert(details@ =~= quoted_change(status_slug(old_status), status_slug(new_status)));
    log(store, orb_id, EventType::StatusChanged, actor, Some(details));
}

/// Logs a phase change event.
pub fn log_phase_change(
    store: &mut AuditStore,
    orb_id: &OrbId,
    old_phase: OrbPhase,
    new_phase: OrbPhase,
    actor: &str,
)
    ensures
        is_logged(
            old(store)@,
            final(store)@,
            orb_id@,
            EventType::PhaseChanged,
            actor@,
            Some(quoted_change(phase_slug(old_phase), phase_slug(new_phase))),
        ),
{
    proof {
        lemma_phase_plain(old_phase);
        lemma_phase_plain(new_phase);
    }
    let from = json_text(old_phase.slug());
    let to = json_text(new_phase.slug());
    let details = change_text(from.as_str(), to.as_str());
    assert(details@ =~= quoted_change(phase_slug(old_phase), phase_slug(new_phase)));
    log(store, orb_id, EventType::PhaseChanged, actor, Some(details));
}

/// Logs a priority change event.
pub fn log_priority_change(
    store: &mut AuditStore,
    orb_id: &OrbId,
    old_priority: u8,
    new_priority: u8,
    actor: &str,
)
    ensures
        is_logged(
            old(store)@,
            final(store)@,
            orb_id@,
            EventType::PriorityChanged,
            actor@,
            Some(decimal(old_priority as nat) + " -> "@ + decimal(new_priority as nat)),
        ),
{
    let from = decimal_text(old_priority as u128);
    let to = decimal_text(new_priority as u128);
    let details = change_text(from.as_str(), to.as_str());
    log(store, orb_id, EventType::PriorityChanged, actor, Some(details));
}

/// Logs an assignment event.
pub fn log_assigned(store: &mut AuditStore, orb_id: &OrbId, assignee: &str, actor: &str)
    ensures
        is_logged(
            old(store)@,
            final(store)@,
            orb_id@,
            EventType::Assigned,
            actor@,
            Some("assigned to "@ + assignee@),
        ),
{
    let details = concat("assigned to ", assignee);
    log(store, orb_id, EventType::Assigned, actor, Some(details));
}

/// Logs a dependency-added event.
pub fn log_dep_added(store: &mut AuditStore, orb_id: &OrbId, dep_id: &OrbId, actor: &str)
    ensures
        is_logged(
            old(store)@,
            final(store)@,
            orb_id@,
            EventType::DepAdded,
            actor@,
            Some("dependency: "@ + dep_id@),
        ),
{
    let details = concat("dependency: ", dep_id.as_str());
    log(store, orb_id, EventType::DepAdded, actor, Some(details));
}

/// Logs a dependency-removed event.
pub fn log_dep_removed(store: &mut AuditStore, orb_id: &OrbId, dep_id: &OrbId, actor: &str)
    ensures
        is_logged(
            old(store)@,
            final(store)@,
            orb_id@,
            EventType::DepRemoved,
            actor@,
            Some("removed dependency: "@ + dep_id@),
        ),
{
    let details = concat("removed dependency: ", dep_id.as_str());
    log(store, orb_id, EventType::DepRemoved, actor, Some(details));
}

/// Logs a creation event.
pub fn log_creation(store: &mut AuditStore, orb_id: &OrbId, actor: &str)
    ensures
        is_logged(old(store)@, final(store)@, orb_id@, EventType::Created, actor@, None),
{
    log(store, orb_id, EventType::Created, actor, None);
}

/// Logs a deferred event.
pub fn log_deferred(store: &mut AuditStore, orb_id: &OrbId, actor: &str)
    ensures
        is_logged(old(store)@, final(store)@, orb_id@, EventType::Deferred, actor@, None),
{
    log(store, orb_id, EventType::Deferred, actor, None);
}

/// Logs an undeferred event.
pub fn log_undeferred(store: &mut AuditStore, orb_id: &OrbId, actor: &str)
    ensures
        is_logged(old(store)@, final(store)@, orb_id@, EventType::Undeferred, actor@, None),
{
    log(store, orb_id, EventType::Undeferred, actor, None);
}

/// Logs a confidence-recorded event. Called when a worker self-reports a confidence score for
/// the orb's result; `confidence` is the score as written with two decimals.
pub fn log_confidence_recorded(
    store: &mut AuditStore,
    orb_id: &OrbId,
    confidence: &str,
    actor: &str,
)
    ensures
        is_logged(
            old(store)@,
            final(store)@,
            orb_id@,
            EventType::ConfidenceRecorded,
            actor@,
            Some(confidence@),
        ),
{
    log(store, orb_id, EventType::ConfidenceRecorded, actor, Some(confidence.to_owned()));
}

/// Logs a tombstoned event.
pub fn log_tombstoned(store: &mut AuditStore, orb_id: &OrbId, reason: Option<&str>, actor: &str)
    ensures
        is_logged(
            old(store)@,
            final(store)@,
            orb_id@,
            EventType::Tombstoned,
            actor@,
            opt_str(reason),
        ),
{
    let details = match reason {
        Some(r) => Some(r.to_owned()),
        None => None,
    };
    log(store, orb_id, EventType::Tombstoned, actor, details);
}

/// Logging adds one event behind all others, about the given orb, of the given type, by the given
/// actor and with the given details, and changes nothing else.
pub proof fn law_logged(
    before: AuditStoreView,
    after: AuditStoreView,
    orb_id: Seq<char>,
    event_type: EventType,
    actor: Seq<char>,
    details: Option<Seq<char>>,
)
    requires
        is_logged(before, after, orb_id, event_type, actor, details),
    ensures
        after.events.len() == before.events.len() + 1,
        after.events.take(before.events.len() as int) == before.events,
        after.events.last().orb_id == orb_id,
        after.events.last().event_type == event_type,
        after.events.last().actor == actor,
        after.events.last().details == details,
        after.comments == before.comments,
        after.events_path == before.events_path,
        after.comments_path == before.comments_path,
{
    assert(after.events.take(before.events.len() as int) =~= before.events);
}

/// A change of state is logged as the old name and the new one, each in quotes, with an arrow
/// between them.
pub proof fn law_quoted_change(old_name: Seq<char>, new_name: Seq<char>)
    ensures
        ({
            let text = quoted_change(old_name, new_name);
            let n = old_name.len() as int;
            &&& text.len() == n + new_name.len() + 8
            &&& text[0] == '"' && text[n + 1] == '"'
            &&& text.subrange(1, n + 1) == old_name
            &&& text.subrange(n + 2, n + 6) == " -> "@
            &&& text[n + 6] == '"' && text.last() == '"'
            &&& text.subrange(n + 7, n + 7 + new_name.len()) == new_name
        }),
{
    reveal_strlit(" -> ");
    let text = quoted_change(old_name, new_name);
    let n = old_name.len() as int;
    assert(text.subrange(1, n + 1) =~= old_name);
    assert(text.subrange(n + 2, n + 6) =~= " -> "@);
    assert(text.subrange(n + 7, n + 7 + new_name.len()) =~= new_name);
}

/// Events are dated by when they were logged, comments by when they were made.
pub proof fn law_dates(e: AuditEventView, c: CommentView)
    ensures
        <AuditEvent as Dated>::time(e) == e.timestamp,
        <Comment as Dated>::time(c) == c.created_at,
{
}

} // verus!

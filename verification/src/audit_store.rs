//! The store of audit events and comments.

use vstd::prelude::*;

use crate::audit::{AuditEvent, AuditEventView, Comment, CommentView, EventType};
use crate::dated::{is_in_time_order, sort_by_time};
use crate::id::OrbId;
use crate::log::{duplicate_all, keep, views};
use crate::paths::{join_path, joined_path, parent_dir, parent_path};
use crate::time::earlier;
use crate::uuid::is_random;

verus! {

/// Append-only store for audit events and comments.
///
/// Events are stored in `events.jsonl` and comments in `comments.jsonl`, both in the same
/// directory.
pub struct AuditStore {
    events_path: String,
    comments_path: String,
    events: Vec<AuditEvent>,
    comments: Vec<Comment>,
}

/// What an [`AuditStore`] holds: the paths of its files, and the events and comments in the
/// order in which they were written.
#[verifier::ext_equal]
pub struct AuditStoreView {
    pub events_path: Seq<char>,
    pub comments_path: Seq<char>,
    pub events: Seq<AuditEventView>,
    pub comments: Seq<CommentView>,
}

impl View for AuditStore {
    type V = AuditStoreView;

    closed spec fn view(&self) -> AuditStoreView {
        AuditStoreView {
            events_path: self.events_path@,
            comments_path: self.comments_path@,
            events: views(self.events@),
            comments: views(self.comments@),
        }
    }
}

impl AuditStoreView {
    /// The store with one more event.
    pub open spec fn with_event(self, e: AuditEventView) -> AuditStoreView {
        AuditStoreView { events: self.events.push(e), ..self }
    }

    /// The store with one more comment.
    pub open spec fn with_comment(self, c: CommentView) -> AuditStoreView {
        AuditStoreView { comments: self.comments.push(c), ..self }
    }
}

/// The path of the comments that belong to the events at the given path: `comments.jsonl` in
/// the same directory.
pub open spec fn sibling_comments(events_path: Seq<char>) -> Seq<char> {
    joined_path(
        match parent_path(events_path) {
            Some(dir) => dir,
            None => "."@,
        },
        "comments.jsonl"@,
    )
}

impl AuditStore {
    /// Creates an `AuditStore` rooted at the given events file path, without records.
    ///
    /// Comments are stored alongside in a sibling `comments.jsonl` file in the same directory.
    pub fn new(events_path: &str) -> (store: AuditStore)
        ensures
            store@ == (AuditStoreView {
                events_path: events_path@,
                comments_path: sibling_comments(events_path@),
                events: Seq::empty(),
                comments: Seq::empty(),
            }),
    {
        let store = AuditStore::from_log(events_path, Vec::new(), Vec::new());
        assert(store@.events =~= Seq::empty());
        assert(store@.comments =~= Seq::empty());
        store
    }

    /// An `AuditStore` rooted at the given events file path, with the given records.
    pub fn from_log(events_path: &str, events: Vec<AuditEvent>, comments: Vec<Comment>) -> (store:
        AuditStore)
        ensures
            store@ == (AuditStoreView {
                events_path: events_path@,
                comments_path: sibling_comments(events_path@),
                events: views(events@),
                comments: views(comments@),
            }),
    {
        let comments_path = match parent_dir(events_path) {
            Some(dir) => join_path(dir.as_str(), "comments.jsonl"),
            None => join_path(".", "comments.jsonl"),
        };
        AuditStore { events_path: events_path.to_owned(), comments_path, events, comments }
    }

    /// Returns the path to the events file.
    pub fn events_path(&self) -> (path: &str)
        ensures
            path@ == self@.events_path,
    {
        self.events_path.as_str()
    }

    /// Returns the path to the comments file.
    pub fn comments_path(&self) -> (path: &str)
        ensures
            path@ == self@.comments_path,
    {
        self.comments_path.as_str()
    }

    /// Appends an audit event to the events log.
    pub fn log_event(&mut self, event: &AuditEvent)
        ensures
            final(self)@ == old(self)@.with_event(event@),
    {
        self.events.push(event.clone());
        assert(self@ =~= old(self)@.with_event(event@));
    }

    /// The event that was logged last.
    pub fn last_event(&self) -> (r: Option<AuditEvent>)
        ensures
            match r {
                Some(e) => self@.events.len() > 0 && e@ == self@.events.last(),
                None => self@.events.len() == 0,
            },
    {
        let n: usize = self.events.len();
        if n == 0 {
            None
        } else {
            Some(self.events[n - 1].clone())
        }
    }

    /// Returns all audit events for a given orb, in chronological order.
    pub fn events_for_orb(&self, orb_id: &OrbId) -> (r: Vec<AuditEvent>)
        ensures
            is_in_time_order::<AuditEvent>(
                views(r@),
                self@.events.filter(|e: AuditEventView| e.orb_id == orb_id@),
            ),
    {
        let ghost pred = |e: AuditEventView| e.orb_id == orb_id@;
        let f = |e: &AuditEvent| -> (b: bool)
            ensures
                b == (e@.orb_id == orb_id@),
        {
            e.orb_id == *orb_id
        };
        sort_by_time(keep(&self.events, f, Ghost(pred)))
    }

    /// Returns all audit events in chronological order.
    pub fn all_events(&self) -> (r: Vec<AuditEvent>)
        ensures
            is_in_time_order::<AuditEvent>(views(r@), self@.events),
    {
        sort_by_time(duplicate_all(&self.events))
    }

    /// Adds a comment and logs a corresponding `Commented` audit event.
    pub fn add_comment(&mut self, comment: &Comment)
        ensures
            ({
                let e = final(self)@.events.last();
                &&& final(self)@ == old(self)@.with_comment(comment@).with_event(e)
                &&& is_random(e.id.bits)
                &&& e == (AuditEventView {
                    id: e.id,
                    orb_id: comment@.orb_id,
                    event_type: EventType::Commented,
                    timestamp: e.timestamp,
                    actor: comment@.author,
                    details: Some(comment@.body),
                })
            }),
    {
        self.comments.push(comment.clone());
        assert(self@ =~= old(self)@.with_comment(comment@));
        let event = AuditEvent::new(
            comment.orb_id.clone(),
            EventType::Commented,
            comment.author.as_str(),
            Some(comment.body.clone()),
        );
        self.log_event(&event);
    }

    /// Returns all comments for a given orb, in chronological order.
    pub fn comments_for_orb(&self, orb_id: &OrbId) -> (r: Vec<Comment>)
        ensures
            is_in_time_order::<Comment>(
                views(r@),
                self@.comments.filter(|c: CommentView| c.orb_id == orb_id@),
            ),
    {
        let ghost pred = |c: CommentView| c.orb_id == orb_id@;
        let f = |c: &Comment| -> (b: bool)
            ensures
                b == (c@.orb_id == orb_id@),
        {
            c.orb_id == *orb_id
        };
        sort_by_time(keep(&self.comments, f, Ghost(pred)))
    }
}

/// What is logged for one orb is found for that orb, after all that is not later, and does
/// not show for any other.
pub proof fn law_event_is_found(
    store: AuditStoreView,
    e: AuditEventView,
    orb_id: Seq<char>,
    before: Seq<AuditEventView>,
    after: Seq<AuditEventView>,
)
    requires
        is_in_time_order::<AuditEvent>(
            before,
            store.events.filter(|x: AuditEventView| x.orb_id == orb_id),
        ),
        is_in_time_order::<AuditEvent>(
            after,
            store.with_event(e).events.filter(|x: AuditEventView| x.orb_id == orb_id),
        ),
    ensures
        e.orb_id != orb_id ==> after == before,
        e.orb_id == orb_id && (forall|i: int|
            0 <= i < before.len() ==> !earlier(e.timestamp, (#[trigger] before[i]).timestamp))
            ==> after == before.push(e),
{
    let pred = |x: AuditEventView| x.orb_id == orb_id;
    let old_events = store.events.filter(pred);
    let new_events = store.with_event(e).events.filter(pred);
    assert(new_events == if e.orb_id == orb_id {
        old_events.push(e)
    } else {
        old_events
    }) by {
        reveal(Seq::filter);
        assert(store.with_event(e).events.drop_last() =~= store.events);
    }
    if e.orb_id != orb_id {
        crate::dated::law_time_order_unique::<AuditEvent>(after, before, old_events);
    } else if forall|i: int|
        0 <= i < before.len() ==> !earlier(e.timestamp, (#[trigger] before[i]).timestamp) {
        crate::dated::lemma_append_in_time::<AuditEvent>(before, old_events, e);
        crate::dated::law_time_order_unique::<AuditEvent>(after, before.push(e), new_events);
    }
}

/// What is listed for an orb are exactly its events, none before an earlier one.
pub proof fn law_events_of_orb(
    store: AuditStoreView,
    orb_id: Seq<char>,
    r: Seq<AuditEventView>,
    e: AuditEventView,
)
    requires
        is_in_time_order::<AuditEvent>(
            r,
            store.events.filter(|x: AuditEventView| x.orb_id == orb_id),
        ),
    ensures
        r.contains(e) <==> store.events.contains(e) && e.orb_id == orb_id,
        forall|a: int, b: int|
            0 <= a < b < r.len() ==> !earlier(
                (#[trigger] r[b]).timestamp,
                (#[trigger] r[a]).timestamp,
            ),
{
    let pred = |x: AuditEventView| x.orb_id == orb_id;
    crate::lists::lemma_filter(store.events, pred);
    crate::dated::law_same_records::<AuditEvent>(r, store.events.filter(pred), e);
}

/// All events are listed, none before an earlier one.
pub proof fn law_all_events(store: AuditStoreView, r: Seq<AuditEventView>, e: AuditEventView)
    requires
        is_in_time_order::<AuditEvent>(r, store.events),
    ensures
        r.contains(e) <==> store.events.contains(e),
        r.len() == store.events.len(),
        forall|a: int, b: int|
            0 <= a < b < r.len() ==> !earlier(
                (#[trigger] r[b]).timestamp,
                (#[trigger] r[a]).timestamp,
            ),
{
    crate::dated::law_same_records::<AuditEvent>(r, store.events, e);
}

/// What is listed for an orb are exactly its comments, none before an earlier one.
pub proof fn law_comments_of_orb(
    store: AuditStoreView,
    orb_id: Seq<char>,
    r: Seq<CommentView>,
    c: CommentView,
)
    requires
        is_in_time_order::<Comment>(
            r,
            store.comments.filter(|x: CommentView| x.orb_id == orb_id),
        ),
    ensures
        r.contains(c) <==> store.comments.contains(c) && c.orb_id == orb_id,
        forall|a: int, b: int|
            0 <= a < b < r.len() ==> !earlier(
                (#[trigger] r[b]).created_at,
                (#[trigger] r[a]).created_at,
            ),
{
    let pred = |x: CommentView| x.orb_id == orb_id;
    crate::lists::lemma_filter(store.comments, pred);
    crate::dated::law_same_records::<Comment>(r, store.comments.filter(pred), c);
}

/// One more event, or one more comment, stands behind all others and changes nothing else.
pub proof fn law_records(store: AuditStoreView, e: AuditEventView, c: CommentView)
    ensures
        store.with_event(e).events == store.events + seq![e],
        store.with_event(e).comments == store.comments,
        store.with_event(e).events_path == store.events_path,
        store.with_event(e).comments_path == store.comments_path,
        store.with_comment(c).comments == store.comments + seq![c],
        store.with_comment(c).events == store.events,
        store.with_comment(c).events_path == store.events_path,
        store.with_comment(c).comments_path == store.comments_path,
{
    assert(store.events.push(e) =~= store.events + seq![e]);
    assert(store.comments.push(c) =~= store.comments + seq![c]);
}

/// The comments stand in the file `comments.jsonl` beside the events.
pub proof fn law_comments_beside_events(dir: Seq<char>, name: Seq<char>)
    requires
        dir.len() > 0,
        dir.last() != '/',
        !(dir.len() >= 2 && dir.last() == '.' && dir[dir.len() - 2] == '/'),
        name.len() > 0,
        !name.contains('/'),
        name != seq!['.'],
    ensures
        sibling_comments(dir + seq!['/'] + name) == dir + "/comments.jsonl"@,
        sibling_comments(name) == "comments.jsonl"@,
{
    crate::paths::law_parent_of_name(dir, name);
    crate::paths::law_parent_of_part(name);
    reveal_strlit("comments.jsonl");
    reveal_strlit("/comments.jsonl");
    assert(sibling_comments(dir + seq!['/'] + name) =~= dir + "/comments.jsonl"@);
    assert(sibling_comments(name) =~= "comments.jsonl"@);
}

} // verus!

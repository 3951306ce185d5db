//! Names of types, edges and states, as they are typed and shown.

use vstd::prelude::*;

use crate::dep::EdgeType;
use crate::orb::{
    phase_slug, status_slug, Orb, OrbPhase, OrbStatus, OrbType, OrbTypeView, OrbView,
};
use crate::task::TaskStatus;
use crate::text::{chars_of, str_eq};

verus! {

/// A character, with a small letter for an ASCII capital.
pub open spec fn lower_char(c: char) -> char {
    if 'A' <= c <= 'Z' {
        (c as u8 + 32) as char
    } else {
        c
    }
}

/// A text with small letters for its ASCII capitals.
pub open spec fn lowered(s: Seq<char>) -> Seq<char> {
    s.map_values(|c: char| lower_char(c))
}

/// The text with small letters for its ASCII capitals.
pub fn to_lower(s: &str) -> (r: String)
    ensures
        r@ == lowered(s@),
{
    let v = chars_of(s);
    let mut r = String::new();
    let mut i: usize = 0;
    assert(r@ =~= lowered(v@.take(0)));
    while i < v.len()
        invariant
            i <= v@.len(),
            r@ == lowered(v@.take(i as int)),
        decreases v@.len() - i,
    {
        let c = v[i];
        if 'A' <= c && c <= 'Z' {
            r.push((c as u8 + 32) as char);
        } else {
            r.push(c);
        }
        i += 1;
        assert(r@ =~= lowered(v@.take(i as int)));
    }
    assert(v@.take(v@.len() as int) =~= s@);
    r
}

/// The type with the given name, without regard to ASCII case; a custom one where the name is
/// not known.
pub open spec fn type_named(s: Seq<char>) -> OrbTypeView {
    let name = lowered(s);
    if name == "epic"@ {
        OrbTypeView::Epic
    } else if name == "feature"@ {
        OrbTypeView::Feature
    } else if name == "task"@ {
        OrbTypeView::Task
    } else if name == "bug"@ {
        OrbTypeView::Bug
    } else if name == "chore"@ {
        OrbTypeView::Chore
    } else if name == "docs"@ {
        OrbTypeView::Docs
    } else {
        OrbTypeView::Custom(name)
    }
}

/// Parses the name of an orb type.
pub fn parse_orb_type(s: &str) -> (r: OrbType)
    ensures
        r@ == type_named(s@),
{
    let name = to_lower(s);
    let n = name.as_str();
    if str_eq(n, "epic") {
        OrbType::Epic
    } else if str_eq(n, "feature") {
        OrbType::Feature
    } else if str_eq(n, "task") {
        OrbType::Task
    } else if str_eq(n, "bug") {
        OrbType::Bug
    } else if str_eq(n, "chore") {
        OrbType::Chore
    } else if str_eq(n, "docs") {
        OrbType::Docs
    } else {
        OrbType::Custom(name)
    }
}

/// The edge type with the given name, without regard to ASCII case.
pub open spec fn edge_type_named(s: Seq<char>) -> Option<EdgeType> {
    let name = lowered(s);
    if name == "blocks"@ {
        Some(EdgeType::Blocks)
    } else if name == "depends_on"@ || name == "depends-on"@ {
        Some(EdgeType::DependsOn)
    } else if name == "parent"@ {
        Some(EdgeType::Parent)
    } else if name == "child"@ {
        Some(EdgeType::Child)
    } else if name == "related"@ {
        Some(EdgeType::Related)
    } else if name == "duplicates"@ {
        Some(EdgeType::Duplicates)
    } else if name == "follows"@ {
        Some(EdgeType::Follows)
    } else {
        None
    }
}

/// A name that stands for nothing.
#[derive(Debug, Clone, PartialEq, Eq)]
pub enum NameError {
    UnknownEdgeType(String),
    UnknownStatus(String),
    UnknownPhase(String),
}

/// What a [`NameError`] holds.
pub enum NameErrorView {
    UnknownEdgeType(Seq<char>),
    UnknownStatus(Seq<char>),
    UnknownPhase(Seq<char>),
}

impl View for NameError {
    type V = NameErrorView;

    open spec fn view(&self) -> NameErrorView {
        match self {
            NameError::UnknownEdgeType(s) => NameErrorView::UnknownEdgeType(s@),
            NameError::UnknownStatus(s) => NameErrorView::UnknownStatus(s@),
            NameError::UnknownPhase(s) => NameErrorView::UnknownPhase(s@),
        }
    }
}

/// The text of a [`NameError`].
pub open spec fn name_message(e: NameErrorView) -> Seq<char> {
    match e {
        NameErrorView::UnknownEdgeType(s) => "unknown edge type: "@ + s,
        NameErrorView::UnknownStatus(s) => "unknown status: "@ + s,
        NameErrorView::UnknownPhase(s) => "unknown phase: "@ + s,
    }
}

impl NameError {
    /// The text of the error.
    pub fn message(&self) -> (s: String)
        ensures
            s@ == name_message(self@),
    {
        let (start, name) = match self {
            NameError::UnknownEdgeType(s) => ("unknown edge type: ", s),
            NameError::UnknownStatus(s) => ("unknown status: ", s),
            NameError::UnknownPhase(s) => ("unknown phase: ", s),
        };
        let mut text = start.to_owned();
        text.append(name.as_str());
        text
    }
}

/// Parses the name of an edge type.
///
/// # Errors
///
/// `UnknownEdgeType` with the name in small letters if there is none of that name.
pub fn parse_edge_type(s: &str) -> (r: Result<EdgeType, NameError>)
    ensures
        match r {
            Ok(t) => edge_type_named(s@) == Some(t),
            Err(e) => edge_type_named(s@) is None && e@ == NameErrorView::UnknownEdgeType(
                lowered(s@),
            ),
        },
{
    let name = to_lower(s);
    let n = name.as_str();
    if str_eq(n, "blocks") {
        Ok(EdgeType::Blocks)
    } else if str_eq(n, "depends_on") || str_eq(n, "depends-on") {
        Ok(EdgeType::DependsOn)
    } else if str_eq(n, "parent") {
        Ok(EdgeType::Parent)
    } else if str_eq(n, "child") {
        Ok(EdgeType::Child)
    } else if str_eq(n, "related") {
        Ok(EdgeType::Related)
    } else if str_eq(n, "duplicates") {
        Ok(EdgeType::Duplicates)
    } else if str_eq(n, "follows") {
        Ok(EdgeType::Follows)
    } else {
        Err(NameError::UnknownEdgeType(name))
    }
}

/// The status with the given name, without regard to ASCII case.
pub open spec fn status_named(s: Seq<char>) -> Option<OrbStatus> {
    let name = lowered(s);
    if name == "draft"@ {
        Some(OrbStatus::Draft)
    } else if name == "pending"@ {
        Some(OrbStatus::Pending)
    } else if name == "active"@ {
        Some(OrbStatus::Active)
    } else if name == "review"@ {
        Some(OrbStatus::Review)
    } else if name == "done"@ {
        Some(OrbStatus::Done)
    } else if name == "failed"@ {
        Some(OrbStatus::Failed)
    } else if name == "cancelled"@ || name == "canceled"@ {
        Some(OrbStatus::Cancelled)
    } else if name == "deferred"@ {
        Some(OrbStatus::Deferred)
    } else if name == "tombstone"@ {
        Some(OrbStatus::Tombstone)
    } else {
        None
    }
}

/// Parses the name of a status.
///
/// # Errors
///
/// `UnknownStatus` with the name in small letters if there is none of that name.
pub fn parse_status(s: &str) -> (r: Result<OrbStatus, NameError>)
    ensures
        match r {
            Ok(t) => status_named(s@) == Some(t),
            Err(e) => status_named(s@) is None && e@ == NameErrorView::UnknownStatus(lowered(s@)),
        },
{
    let name = to_lower(s);
    let n = name.as_str();
    if str_eq(n, "draft") {
        Ok(OrbStatus::Draft)
    } else if str_eq(n, "pending") {
        Ok(OrbStatus::Pending)
    } else if str_eq(n, "active") {
        Ok(OrbStatus::Active)
    } else if str_eq(n, "review") {
        Ok(OrbStatus::Review)
    } else if str_eq(n, "done") {
        Ok(OrbStatus::Done)
    } else if str_eq(n, "failed") {
        Ok(OrbStatus::Failed)
    } else if str_eq(n, "cancelled") || str_eq(n, "canceled") {
        Ok(OrbStatus::Cancelled)
    } else if str_eq(n, "deferred") {
        Ok(OrbStatus::Deferred)
    } else if str_eq(n, "tombstone") {
        Ok(OrbStatus::Tombstone)
    } else {
        Err(NameError::UnknownStatus(name))
    }
}

/// The phase with the given name, without regard to ASCII case.
pub open spec fn phase_named(s: Seq<char>) -> Option<OrbPhase> {
    let name = lowered(s);
    if name == "draft"@ {
        Some(OrbPhase::Draft)
    } else if name == "pending"@ {
        Some(OrbPhase::Pending)
    } else if name == "speccing"@ {
        Some(OrbPhase::Speccing)
    } else if name == "decomposing"@ {
        Some(OrbPhase::Decomposing)
    } else if name == "refining"@ {
        Some(OrbPhase::Refining)
    } else if name == "review"@ {
        Some(OrbPhase::Review)
    } else if name == "waiting"@ {
        Some(OrbPhase::Waiting)
    } else if name == "executing"@ {
        Some(OrbPhase::Executing)
    } else if name == "reevaluating"@ || name == "re-evaluating"@ {
        Some(OrbPhase::Reevaluating)
    } else if name == "done"@ {
        Some(OrbPhase::Done)
    } else if name == "failed"@ {
        Some(OrbPhase::Failed)
    } else if name == "cancelled"@ || name == "canceled"@ {
        Some(OrbPhase::Cancelled)
    } else if name == "deferred"@ {
        Some(OrbPhase::Deferred)
    } else if name == "tombstone"@ {
        Some(OrbPhase::Tombstone)
    } else {
        None
    }
}

/// Parses the name of a phase.
///
/// # Errors
///
/// `UnknownPhase` with the name in small letters if there is none of that name.
pub fn parse_phase(s: &str) -> (r: Result<OrbPhase, NameError>)
    ensures
        match r {
            Ok(t) => phase_named(s@) == Some(t),
            Err(e) => phase_named(s@) is None && e@ == NameErrorView::UnknownPhase(lowered(s@)),
        },
{
    let name = to_lower(s);
    let n = name.as_str();
    if str_eq(n, "draft") {
        Ok(OrbPhase::Draft)
    } else if str_eq(n, "pending") {
        Ok(OrbPhase::Pending)
    } else if str_eq(n, "speccing") {
        Ok(OrbPhase::Speccing)
    } else if str_eq(n, "decomposing") {
        Ok(OrbPhase::Decomposing)
    } else if str_eq(n, "refining") {
        Ok(OrbPhase::Refining)
    } else if str_eq(n, "review") {
        Ok(OrbPhase::Review)
    } else if str_eq(n, "waiting") {
        Ok(OrbPhase::Waiting)
    } else if str_eq(n, "executing") {
        Ok(OrbPhase::Executing)
    } else if str_eq(n, "reevaluating") || str_eq(n, "re-evaluating") {
        Ok(OrbPhase::Reevaluating)
    } else if str_eq(n, "done") {
        Ok(OrbPhase::Done)
    } else if str_eq(n, "failed") {
        Ok(OrbPhase::Failed)
    } else if str_eq(n, "cancelled") || str_eq(n, "canceled") {
        Ok(OrbPhase::Cancelled)
    } else if str_eq(n, "deferred") {
        Ok(OrbPhase::Deferred)
    } else if str_eq(n, "tombstone") {
        Ok(OrbPhase::Tombstone)
    } else {
        Err(NameError::UnknownPhase(name))
    }
}

/// A state of the lifecycle by which orbs are picked.
#[derive(Debug, Clone, Copy, PartialEq, Eq, Structural)]
pub enum LifecycleFilter {
    Status(OrbStatus),
    Phase(OrbPhase),
}

/// The state with the given name: a status if there is one of that name, else a phase.
pub open spec fn filter_named(s: Seq<char>) -> Option<LifecycleFilter> {
    match status_named(s) {
        Some(status) => Some(LifecycleFilter::Status(status)),
        None => match phase_named(s) {
            Some(phase) => Some(LifecycleFilter::Phase(phase)),
            None => None,
        },
    }
}

/// Parses the name of a state of the lifecycle.
///
/// # Errors
///
/// `UnknownPhase` with the name in small letters if there is neither a status nor a phase of
/// that name.
pub fn parse_lifecycle_filter(s: &str) -> (r: Result<LifecycleFilter, NameError>)
    ensures
        match r {
            Ok(f) => filter_named(s@) == Some(f),
            Err(e) => filter_named(s@) is None && e@ == NameErrorView::UnknownPhase(lowered(s@)),
        },
{
    match parse_status(s) {
        Ok(status) => Ok(LifecycleFilter::Status(status)),
        Err(_) => match parse_phase(s) {
            Ok(phase) => Ok(LifecycleFilter::Phase(phase)),
            Err(e) => Err(e),
        },
    }
}

/// The state of an orb as it is shown: its status, else its phase.
pub open spec fn state_label(orb: OrbView) -> Seq<char> {
    match (orb.status, orb.phase) {
        (Some(status), _) => status_slug(status),
        (None, Some(phase)) => phase_slug(phase),
        (None, None) => "unknown"@,
    }
}

/// The state of an orb as it is shown.
pub fn lifecycle_label(orb: &Orb) -> (s: &'static str)
    ensures
        s@ == state_label(orb@),
{
    match orb.status {
        Some(status) => status.slug(),
        None => match orb.phase {
            Some(phase) => phase.slug(),
            None => "unknown",
        },
    }
}

/// Whether the orb is in the given state. A status also picks the orbs whose phase has its
/// name.
pub open spec fn matches_filter(orb: OrbView, filter: LifecycleFilter) -> bool {
    match filter {
        LifecycleFilter::Status(status) => orb.status == Some(status) || state_label(orb)
            == status_slug(status),
        LifecycleFilter::Phase(phase) => orb.phase == Some(phase),
    }
}

/// Whether the orb is in the given state.
pub fn lifecycle_matches(orb: &Orb, filter: LifecycleFilter) -> (r: bool)
    ensures
        r == matches_filter(orb@, filter),
{
    match filter {
        LifecycleFilter::Status(status) => {
            let same = match orb.status {
                Some(s) => s == status,
                None => false,
            };
            same || str_eq(lifecycle_label(orb), status.slug())
        },
        LifecycleFilter::Phase(phase) => match orb.phase {
            Some(p) => p == phase,
            None => false,
        },
    }
}

/// The status of a task that a status names.
pub open spec fn as_task_status(status: OrbStatus) -> Option<TaskStatus> {
    match status {
        OrbStatus::Pending => Some(TaskStatus::Pending),
        OrbStatus::Active => Some(TaskStatus::Active),
        OrbStatus::Review => Some(TaskStatus::Review),
        OrbStatus::Done => Some(TaskStatus::Done),
        OrbStatus::Failed => Some(TaskStatus::Failed),
        OrbStatus::Cancelled => Some(TaskStatus::Cancelled),
        OrbStatus::Draft | OrbStatus::Deferred | OrbStatus::Tombstone => None,
    }
}

/// Whether the orb's effective status is the given state.
pub open spec fn matches_effective(orb: OrbView, filter: LifecycleFilter) -> bool {
    match filter {
        LifecycleFilter::Status(status) => as_task_status(status) == Some(orb.effective_status()),
        LifecycleFilter::Phase(_) => false,
    }
}

/// Whether the orb's effective status is the given state.
pub fn effective_matches(orb: &Orb, filter: LifecycleFilter) -> (r: bool)
    ensures
        r == matches_effective(orb@, filter),
{
    let status = match filter {
        LifecycleFilter::Status(status) => status,
        LifecycleFilter::Phase(_) => {
            return false;
        },
    };
    let effective = orb.effective_status();
    match status {
        OrbStatus::Pending => effective == TaskStatus::Pending,
        OrbStatus::Active => effective == TaskStatus::Active,
        OrbStatus::Review => effective == TaskStatus::Review,
        OrbStatus::Done => effective == TaskStatus::Done,
        OrbStatus::Failed => effective == TaskStatus::Failed,
        OrbStatus::Cancelled => effective == TaskStatus::Cancelled,
        OrbStatus::Draft | OrbStatus::Deferred | OrbStatus::Tombstone => false,
    }
}

/// The name of an orb type as it is shown.
pub fn orb_type_label(orb_type: &OrbType) -> (s: &str)
    ensures
        s@ == orb_type@.name(),
{
    orb_type.as_hash_str()
}

/// The name of an edge type as it is shown.
pub open spec fn edge_name(edge_type: EdgeType) -> Seq<char> {
    match edge_type {
        EdgeType::Blocks => "blocks"@,
        EdgeType::DependsOn => "depends_on"@,
        EdgeType::Parent => "parent"@,
        EdgeType::Child => "child"@,
        EdgeType::Related => "related"@,
        EdgeType::Duplicates => "duplicates"@,
        EdgeType::Follows => "follows"@,
    }
}

/// The name of an edge type as it is shown.
pub fn edge_type_label(edge_type: EdgeType) -> (s: &'static str)
    ensures
        s@ == edge_name(edge_type),
{
    match edge_type {
        EdgeType::Blocks => "blocks",
        EdgeType::DependsOn => "depends_on",
        EdgeType::Parent => "parent",
        EdgeType::Child => "child",
        EdgeType::Related => "related",
        EdgeType::Duplicates => "duplicates",
        EdgeType::Follows => "follows",
    }
}

/// The case of ASCII letters does not matter in a name.
pub proof fn law_names_ignore_case(s: Seq<char>)
    ensures
        type_named(lowered(s)) == type_named(s),
        edge_type_named(lowered(s)) == edge_type_named(s),
        status_named(lowered(s)) == status_named(s),
        phase_named(lowered(s)) == phase_named(s),
        filter_named(lowered(s)) == filter_named(s),
{
    assert forall|i: int| 0 <= i < s.len() implies lower_char(lower_char(#[trigger] s[i]))
        == lower_char(s[i]) by {
        let c = s[i];
        if 'A' <= c <= 'Z' {
            assert('a' <= lower_char(c) <= 'z');
        }
    }
    assert(lowered(lowered(s)) =~= lowered(s));
}

/// The name that is shown for a type is the name of that type. A custom type has to be in
/// small letters, and no other type may have its name.
pub proof fn law_type_label_is_name(t: OrbTypeView)
    requires
        t matches OrbTypeView::Custom(name) ==> type_named(name) is Custom && lowered(name) == name,
    ensures
        type_named(t.name()) == t,
{
    reveal_strlit("epic");
    reveal_strlit("feature");
    reveal_strlit("task");
    reveal_strlit("bug");
    reveal_strlit("chore");
    reveal_strlit("docs");
    assert(lowered("epic"@) =~= "epic"@);
    assert("epic"@[0] == 'e');
    assert(lowered("feature"@) =~= "feature"@);
    assert("feature"@[0] == 'f');
    assert(lowered("task"@) =~= "task"@);
    assert("task"@[0] == 't');
    assert(lowered("bug"@) =~= "bug"@);
    assert("bug"@[0] == 'b');
    assert(lowered("chore"@) =~= "chore"@);
    assert("chore"@[0] == 'c');
    assert(lowered("docs"@) =~= "docs"@);
    assert("docs"@[0] == 'd');
}

/// The name that is shown for an edge type is the name of that type.
pub proof fn law_edge_label_is_name(t: EdgeType)
    ensures
        edge_type_named(edge_name(t)) == Some(t),
{
    reveal_strlit("blocks");
    reveal_strlit("depends_on");
    reveal_strlit("depends-on");
    reveal_strlit("parent");
    reveal_strlit("child");
    reveal_strlit("related");
    reveal_strlit("duplicates");
    reveal_strlit("follows");
    assert(lowered("blocks"@) =~= "blocks"@);
    assert("blocks"@[0] == 'b');
    assert(lowered("depends_on"@) =~= "depends_on"@);
    assert("depends_on"@[0] == 'd');
    assert(lowered("parent"@) =~= "parent"@);
    assert("parent"@[0] == 'p');
    assert(lowered("child"@) =~= "child"@);
    assert("child"@[0] == 'c');
    assert(lowered("related"@) =~= "related"@);
    assert("related"@[0] == 'r');
    assert(lowered("duplicates"@) =~= "duplicates"@);
    assert("duplicates"@[1] == 'u');
    assert("depends_on"@[1] == 'e');
    assert("depends-on"@[1] == 'e');
    assert(lowered("follows"@) =~= "follows"@);
    assert("follows"@[0] == 'f');
}

/// The name that is shown for a status is the name of that status.
pub proof fn law_status_label_is_name(status: OrbStatus)
    ensures
        status_named(status_slug(status)) == Some(status),
{
    reveal_strlit("draft");
    reveal_strlit("pending");
    reveal_strlit("active");
    reveal_strlit("review");
    reveal_strlit("done");
    reveal_strlit("failed");
    reveal_strlit("cancelled");
    reveal_strlit("canceled");
    reveal_strlit("deferred");
    reveal_strlit("tombstone");
    assert(lowered("draft"@) =~= "draft"@);
    assert("draft"@[0] == 'd');
    assert(lowered("pending"@) =~= "pending"@);
    assert("pending"@[0] == 'p');
    assert(lowered("active"@) =~= "active"@);
    assert("active"@[0] == 'a');
    assert(lowered("review"@) =~= "review"@);
    assert("review"@[0] == 'r');
    assert(lowered("done"@) =~= "done"@);
    assert("done"@[0] == 'd');
    assert(lowered("failed"@) =~= "failed"@);
    assert("failed"@[0] == 'f');
    assert(lowered("cancelled"@) =~= "cancelled"@);
    assert("cancelled"@[0] == 'c');
    assert(lowered("deferred"@) =~= "deferred"@);
    assert("deferred"@[0] == 'd');
    assert(lowered("tombstone"@) =~= "tombstone"@);
    assert("tombstone"@[0] == 't');
}

/// The name that is shown for a phase is the name of that phase.
pub proof fn law_phase_label_is_name(phase: OrbPhase)
    ensures
        phase_named(phase_slug(phase)) == Some(phase),
{
    reveal_strlit("draft");
    reveal_strlit("pending");
    reveal_strlit("speccing");
    reveal_strlit("decomposing");
    reveal_strlit("refining");
    reveal_strlit("review");
    reveal_strlit("waiting");
    reveal_strlit("executing");
    reveal_strlit("reevaluating");
    reveal_strlit("re-evaluating");
    reveal_strlit("done");
    reveal_strlit("failed");
    reveal_strlit("cancelled");
    reveal_strlit("canceled");
    reveal_strlit("deferred");
    reveal_strlit("tombstone");
    assert(lowered("draft"@) =~= "draft"@);
    assert("draft"@[0] == 'd');
    assert(lowered("pending"@) =~= "pending"@);
    assert("pending"@[0] == 'p');
    assert(lowered("speccing"@) =~= "speccing"@);
    assert("speccing"@[0] == 's');
    assert(lowered("decomposing"@) =~= "decomposing"@);
    assert("decomposing"@[0] == 'd');
    assert(lowered("refining"@) =~= "refining"@);
    assert("refining"@[0] == 'r');
    assert(lowered("review"@) =~= "review"@);
    assert("review"@[0] == 'r');
    assert(lowered("waiting"@) =~= "waiting"@);
    assert("waiting"@[0] == 'w');
    assert(lowered("executing"@) =~= "executing"@);
    assert("executing"@[0] == 'e');
    assert(lowered("reevaluating"@) =~= "reevaluating"@);
    assert("reevaluating"@[0] == 'r');
    assert(lowered("done"@) =~= "done"@);
    assert("done"@[0] == 'd');
    assert(lowered("failed"@) =~= "failed"@);
    assert("failed"@[0] == 'f');
    assert(lowered("cancelled"@) =~= "cancelled"@);
    assert("cancelled"@[0] == 'c');
    assert(lowered("deferred"@) =~= "deferred"@);
    assert("deferred"@[0] == 'd');
    assert(lowered("tombstone"@) =~= "tombstone"@);
    assert("tombstone"@[0] == 't');
}

/// An orb is picked by the state that is shown for it.
pub proof fn law_label_picks(orb: OrbView)
    requires
        orb.status is Some || orb.phase is Some,
    ensures
        filter_named(state_label(orb)) matches Some(filter) && matches_filter(orb, filter),
{
    match (orb.status, orb.phase) {
        (Some(status), _) => {
            law_status_label_is_name(status);
        },
        (None, Some(phase)) => {
            law_phase_label_is_name(phase);
            lemma_named_as(state_label(orb));
        },
        (None, None) => {},
    }
}

/// A status that is found by the name of a phase has that name.
proof fn lemma_named_as(name: Seq<char>)
    requires
        exists|phase: OrbPhase| name == phase_slug(phase),
    ensures
        status_named(name) matches Some(status) ==> status_slug(status) == name,
{
    let phase = choose|phase: OrbPhase| name == phase_slug(phase);
    reveal_strlit("active");
    reveal_strlit("canceled");
    reveal_strlit("cancelled");
    reveal_strlit("decomposing");
    reveal_strlit("deferred");
    reveal_strlit("done");
    reveal_strlit("draft");
    reveal_strlit("executing");
    reveal_strlit("failed");
    reveal_strlit("pending");
    reveal_strlit("re-evaluating");
    reveal_strlit("reevaluating");
    reveal_strlit("refining");
    reveal_strlit("review");
    reveal_strlit("speccing");
    reveal_strlit("tombstone");
    reveal_strlit("waiting");
    assert(lowered("draft"@) =~= "draft"@);
    assert("draft"@[0] == 'd');
    assert(lowered("pending"@) =~= "pending"@);
    assert("pending"@[0] == 'p');
    assert(lowered("speccing"@) =~= "speccing"@);
    assert("speccing"@[0] == 's');
    assert(lowered("decomposing"@) =~= "decomposing"@);
    assert("decomposing"@[0] == 'd');
    assert(lowered("refining"@) =~= "refining"@);
    assert("refining"@[0] == 'r');
    assert(lowered("review"@) =~= "review"@);
    assert("review"@[0] == 'r');
    assert(lowered("waiting"@) =~= "waiting"@);
    assert("waiting"@[0] == 'w');
    assert(lowered("executing"@) =~= "executing"@);
    assert("executing"@[0] == 'e');
    assert(lowered("reevaluating"@) =~= "reevaluating"@);
    assert("reevaluating"@[0] == 'r');
    assert(lowered("done"@) =~= "done"@);
    assert("done"@[0] == 'd');
    assert(lowered("failed"@) =~= "failed"@);
    assert("failed"@[0] == 'f');
    assert(lowered("cancelled"@) =~= "cancelled"@);
    assert("cancelled"@[0] == 'c');
    assert(lowered("deferred"@) =~= "deferred"@);
    assert("deferred"@[0] == 'd');
    assert(lowered("tombstone"@) =~= "tombstone"@);
    assert("tombstone"@[0] == 't');
}

/// Which names stand for which types; all other names stand for custom types of that name, in
/// small letters.
pub proof fn law_types_by_name(s: Seq<char>)
    ensures
        type_named(s) == OrbTypeView::Epic <==> lowered(s) == "epic"@,
        type_named(s) == OrbTypeView::Feature <==> lowered(s) == "feature"@,
        type_named(s) == OrbTypeView::Task <==> lowered(s) == "task"@,
        type_named(s) == OrbTypeView::Bug <==> lowered(s) == "bug"@,
        type_named(s) == OrbTypeView::Chore <==> lowered(s) == "chore"@,
        type_named(s) == OrbTypeView::Docs <==> lowered(s) == "docs"@,
        type_named(s) is Custom ==> type_named(s)
            == OrbTypeView::Custom(lowered(s)),
{
    reveal_strlit("epic");
    reveal_strlit("feature");
    reveal_strlit("task");
    reveal_strlit("bug");
    reveal_strlit("chore");
    reveal_strlit("docs");
    assert("epic"@.len() == 4);
    assert("feature"@.len() == 7);
    assert("task"@.len() == 4);
    assert("bug"@.len() == 3);
    assert("chore"@.len() == 5);
    assert("docs"@.len() == 4);
    assert("epic"@[0] == 'e');
    assert("task"@[0] == 't');
    assert("docs"@[0] == 'd');
}

/// Which names stand for which edge types.
pub proof fn law_edge_types_by_name(s: Seq<char>)
    ensures
        edge_type_named(s) == Some(EdgeType::Blocks) <==> lowered(s) == "blocks"@,
        edge_type_named(s) == Some(EdgeType::DependsOn) <==> lowered(s) == "depends_on"@ || lowered(s) == "depends-on"@,
        edge_type_named(s) == Some(EdgeType::Parent) <==> lowered(s) == "parent"@,
        edge_type_named(s) == Some(EdgeType::Child) <==> lowered(s) == "child"@,
        edge_type_named(s) == Some(EdgeType::Related) <==> lowered(s) == "related"@,
        edge_type_named(s) == Some(EdgeType::Duplicates) <==> lowered(s) == "duplicates"@,
        edge_type_named(s) == Some(EdgeType::Follows) <==> lowered(s) == "follows"@,
{
    reveal_strlit("blocks");
    reveal_strlit("depends_on");
    reveal_strlit("depends-on");
    reveal_strlit("parent");
    reveal_strlit("child");
    reveal_strlit("related");
    reveal_strlit("duplicates");
    reveal_strlit("follows");
    assert("blocks"@.len() == 6);
    assert("depends_on"@.len() == 10);
    assert("depends-on"@.len() == 10);
    assert("parent"@.len() == 6);
    assert("child"@.len() == 5);
    assert("related"@.len() == 7);
    assert("duplicates"@.len() == 10);
    assert("follows"@.len() == 7);
    assert("blocks"@[0] == 'b');
    assert("parent"@[0] == 'p');
    assert("depends_on"@[7] == '_');
    assert("depends-on"@[7] == '-');
    assert("depends_on"@[1] == 'e');
    assert("duplicates"@[1] == 'u');
    assert("depends-on"@[1] == 'e');
    assert("related"@[0] == 'r');
    assert("follows"@[0] == 'f');
}

/// Which names stand for which statuses.
pub proof fn law_statuses_by_name(s: Seq<char>)
    ensures
        status_named(s) == Some(OrbStatus::Draft) <==> lowered(s) == "draft"@,
        status_named(s) == Some(OrbStatus::Pending) <==> lowered(s) == "pending"@,
        status_named(s) == Some(OrbStatus::Active) <==> lowered(s) == "active"@,
        status_named(s) == Some(OrbStatus::Review) <==> lowered(s) == "review"@,
        status_named(s) == Some(OrbStatus::Done) <==> lowered(s) == "done"@,
        status_named(s) == Some(OrbStatus::Failed) <==> lowered(s) == "failed"@,
        status_named(s) == Some(OrbStatus::Cancelled) <==> lowered(s) == "cancelled"@ || lowered(s) == "canceled"@,
        status_named(s) == Some(OrbStatus::Deferred) <==> lowered(s) == "deferred"@,
        status_named(s) == Some(OrbStatus::Tombstone) <==> lowered(s) == "tombstone"@,
{
    reveal_strlit("draft");
    reveal_strlit("pending");
    reveal_strlit("active");
    reveal_strlit("review");
    reveal_strlit("done");
    reveal_strlit("failed");
    reveal_strlit("cancelled");
    reveal_strlit("canceled");
    reveal_strlit("deferred");
    reveal_strlit("tombstone");
    assert("draft"@.len() == 5);
    assert("pending"@.len() == 7);
    assert("active"@.len() == 6);
    assert("review"@.len() == 6);
    assert("done"@.len() == 4);
    assert("failed"@.len() == 6);
    assert("cancelled"@.len() == 9);
    assert("canceled"@.len() == 8);
    assert("deferred"@.len() == 8);
    assert("tombstone"@.len() == 9);
    assert("active"@[0] == 'a');
    assert("review"@[0] == 'r');
    assert("failed"@[0] == 'f');
    assert("cancelled"@[0] == 'c');
    assert("tombstone"@[0] == 't');
    assert("canceled"@[0] == 'c');
    assert("deferred"@[0] == 'd');
}

/// Which names stand for which phases.
pub proof fn law_phases_by_name(s: Seq<char>)
    ensures
        phase_named(s) == Some(OrbPhase::Draft) <==> lowered(s) == "draft"@,
        phase_named(s) == Some(OrbPhase::Pending) <==> lowered(s) == "pending"@,
        phase_named(s) == Some(OrbPhase::Speccing) <==> lowered(s) == "speccing"@,
        phase_named(s) == Some(OrbPhase::Decomposing) <==> lowered(s) == "decomposing"@,
        phase_named(s) == Some(OrbPhase::Refining) <==> lowered(s) == "refining"@,
        phase_named(s) == Some(OrbPhase::Review) <==> lowered(s) == "review"@,
        phase_named(s) == Some(OrbPhase::Waiting) <==> lowered(s) == "waiting"@,
        phase_named(s) == Some(OrbPhase::Executing) <==> lowered(s) == "executing"@,
        phase_named(s) == Some(OrbPhase::Reevaluating) <==> lowered(s) == "reevaluating"@ || lowered(s) == "re-evaluating"@,
        phase_named(s) == Some(OrbPhase::Done) <==> lowered(s) == "done"@,
        phase_named(s) == Some(OrbPhase::Failed) <==> lowered(s) == "failed"@,
        phase_named(s) == Some(OrbPhase::Cancelled) <==> lowered(s) == "cancelled"@ || lowered(s) == "canceled"@,
        phase_named(s) == Some(OrbPhase::Deferred) <==> lowered(s) == "deferred"@,
        phase_named(s) == Some(OrbPhase::Tombstone) <==> lowered(s) == "tombstone"@,
{
    reveal_strlit("draft");
    reveal_strlit("pending");
    reveal_strlit("speccing");
    reveal_strlit("decomposing");
    reveal_strlit("refining");
    reveal_strlit("review");
    reveal_strlit("waiting");
    reveal_strlit("executing");
    reveal_strlit("reevaluating");
    reveal_strlit("re-evaluating");
    reveal_strlit("done");
    reveal_strlit("failed");
    reveal_strlit("cancelled");
    reveal_strlit("canceled");
    reveal_strlit("deferred");
    reveal_strlit("tombstone");
    assert("draft"@.len() == 5);
    assert("pending"@.len() == 7);
    assert("speccing"@.len() == 8);
    assert("decomposing"@.len() == 11);
    assert("refining"@.len() == 8);
    assert("review"@.len() == 6);
    assert("waiting"@.len() == 7);
    assert("executing"@.len() == 9);
    assert("reevaluating"@.len() == 12);
    assert("re-evaluating"@.len() == 13);
    assert("done"@.len() == 4);
    assert("failed"@.len() == 6);
    assert("cancelled"@.len() == 9);
    assert("canceled"@.len() == 8);
    assert("deferred"@.len() == 8);
    assert("tombstone"@.len() == 9);
    assert("pending"@[0] == 'p');
    assert("waiting"@[0] == 'w');
    assert("speccing"@[0] == 's');
    assert("refining"@[0] == 'r');
    assert("canceled"@[0] == 'c');
    assert("deferred"@[0] == 'd');
    assert("review"@[0] == 'r');
    assert("failed"@[0] == 'f');
    assert("executing"@[0] == 'e');
    assert("cancelled"@[0] == 'c');
    assert("tombstone"@[0] == 't');
}

/// The small letter stands as far behind its capital as `a` behind `A`, and every other character
/// stays.
pub proof fn law_lowered(s: Seq<char>, i: int)
    requires
        0 <= i < s.len(),
    ensures
        lowered(s).len() == s.len(),
        'A' <= s[i] <= 'Z' ==> lowered(s)[i] as int - 'a' as int == s[i] as int - 'A' as int,
        !('A' <= s[i] <= 'Z') ==> lowered(s)[i] == s[i],
{
}

/// A name is that of a status where there is one, else that of a phase.
pub proof fn law_status_before_phase(s: Seq<char>, status: OrbStatus, phase: OrbPhase)
    ensures
        status_named(s) == Some(status) ==> filter_named(s) == Some(
            LifecycleFilter::Status(status),
        ),
        status_named(s) is None && phase_named(s) == Some(phase) ==> filter_named(s) == Some(
            LifecycleFilter::Phase(phase),
        ),
        status_named(s) is None && phase_named(s) is None ==> filter_named(s) is None,
{
}

/// Which statuses and phases have the same name.
pub proof fn law_shared_names(status: OrbStatus, phase: OrbPhase)
    ensures
        status_slug(status) == phase_slug(phase) <==> {
            ||| status == OrbStatus::Draft && phase == OrbPhase::Draft
            ||| status == OrbStatus::Pending && phase == OrbPhase::Pending
            ||| status == OrbStatus::Review && phase == OrbPhase::Review
            ||| status == OrbStatus::Done && phase == OrbPhase::Done
            ||| status == OrbStatus::Failed && phase == OrbPhase::Failed
            ||| status == OrbStatus::Cancelled && phase == OrbPhase::Cancelled
            ||| status == OrbStatus::Deferred && phase == OrbPhase::Deferred
            ||| status == OrbStatus::Tombstone && phase == OrbPhase::Tombstone
        },
{
    law_status_label_is_name(status);
    law_phase_label_is_name(phase);
    law_phases_by_name(status_slug(status));
    law_statuses_by_name(phase_slug(phase));
    reveal_strlit("active");
    assert("active"@.len() == 6);
    assert(lowered("active"@) =~= "active"@);
    assert("active"@[0] == 'a');
    reveal_strlit("draft");
    assert("draft"@.len() == 5);
    reveal_strlit("pending");
    assert("pending"@.len() == 7);
    reveal_strlit("speccing");
    assert("speccing"@.len() == 8);
    reveal_strlit("decomposing");
    assert("decomposing"@.len() == 11);
    reveal_strlit("refining");
    assert("refining"@.len() == 8);
    reveal_strlit("review");
    assert("review"@.len() == 6);
    assert("review"@[0] == 'r');
    reveal_strlit("waiting");
    assert("waiting"@.len() == 7);
    reveal_strlit("executing");
    assert("executing"@.len() == 9);
    reveal_strlit("reevaluating");
    assert("reevaluating"@.len() == 12);
    reveal_strlit("done");
    assert("done"@.len() == 4);
    reveal_strlit("failed");
    assert("failed"@.len() == 6);
    assert("failed"@[0] == 'f');
    reveal_strlit("cancelled");
    assert("cancelled"@.len() == 9);
    reveal_strlit("deferred");
    assert("deferred"@.len() == 8);
    reveal_strlit("tombstone");
    assert("tombstone"@.len() == 9);
}

/// A status picks the orbs that are in it, and of the orbs without a status those in the phase of
/// the same name. A phase picks the orbs that are in it.
pub proof fn law_filter_picks(orb: OrbView, status: OrbStatus, other: OrbStatus, phase: OrbPhase)
    ensures
        orb.status == Some(other) ==> (matches_filter(orb, LifecycleFilter::Status(status))
            <==> other == status),
        orb.status is None && orb.phase == Some(phase) ==> (matches_filter(
            orb,
            LifecycleFilter::Status(status),
        ) <==> {
            ||| status == OrbStatus::Draft && phase == OrbPhase::Draft
            ||| status == OrbStatus::Pending && phase == OrbPhase::Pending
            ||| status == OrbStatus::Review && phase == OrbPhase::Review
            ||| status == OrbStatus::Done && phase == OrbPhase::Done
            ||| status == OrbStatus::Failed && phase == OrbPhase::Failed
            ||| status == OrbStatus::Cancelled && phase == OrbPhase::Cancelled
            ||| status == OrbStatus::Deferred && phase == OrbPhase::Deferred
            ||| status == OrbStatus::Tombstone && phase == OrbPhase::Tombstone
        }),
        orb.status is None && orb.phase is None ==> !matches_filter(
            orb,
            LifecycleFilter::Status(status),
        ),
        matches_filter(orb, LifecycleFilter::Phase(phase)) <==> orb.phase == Some(phase),
{
    law_shared_names(status, phase);
    law_status_label_is_name(status);
    law_status_label_is_name(other);
    law_statuses_by_name("unknown"@);
    reveal_strlit("unknown");
    assert(lowered("unknown"@) =~= "unknown"@);
    assert("unknown"@[0] == 'u');
    reveal_strlit("pending");
    assert("pending"@[0] == 'p');
    reveal_strlit("draft");
    assert("draft"@.len() == 5);
    reveal_strlit("active");
    assert("active"@.len() == 6);
    reveal_strlit("review");
    assert("review"@.len() == 6);
    reveal_strlit("done");
    assert("done"@.len() == 4);
    reveal_strlit("failed");
    assert("failed"@.len() == 6);
    reveal_strlit("cancelled");
    assert("cancelled"@.len() == 9);
    reveal_strlit("deferred");
    assert("deferred"@.len() == 8);
    reveal_strlit("tombstone");
    assert("tombstone"@.len() == 9);
    reveal_strlit("canceled");
    assert("canceled"@.len() == 8);
}

/// The state that is shown for an orb is the name of its status, else that of its phase.
pub proof fn law_shown_state(orb: OrbView, status: OrbStatus, phase: OrbPhase)
    ensures
        orb.status == Some(status) ==> state_label(orb) == status_slug(status),
        orb.status is None && orb.phase == Some(phase) ==> state_label(orb) == phase_slug(phase),
        orb.status is None && orb.phase is None ==> state_label(orb) == "unknown"@,
{
}

/// By what it counts as, an orb is picked by the status of that name; drafts, deferred and
/// tombstoned are no such status, and phases pick none.
pub proof fn law_effective_picks(orb: OrbView, phase: OrbPhase)
    ensures
        matches_effective(orb, LifecycleFilter::Status(OrbStatus::Pending)) <==> orb.effective_status()
            == TaskStatus::Pending,
        matches_effective(orb, LifecycleFilter::Status(OrbStatus::Active)) <==> orb.effective_status()
            == TaskStatus::Active,
        matches_effective(orb, LifecycleFilter::Status(OrbStatus::Review)) <==> orb.effective_status()
            == TaskStatus::Review,
        matches_effective(orb, LifecycleFilter::Status(OrbStatus::Done)) <==> orb.effective_status()
            == TaskStatus::Done,
        matches_effective(orb, LifecycleFilter::Status(OrbStatus::Failed)) <==> orb.effective_status()
            == TaskStatus::Failed,
        matches_effective(orb, LifecycleFilter::Status(OrbStatus::Cancelled)) <==> orb.effective_status()
            == TaskStatus::Cancelled,
        !matches_effective(orb, LifecycleFilter::Status(OrbStatus::Draft)),
        !matches_effective(orb, LifecycleFilter::Status(OrbStatus::Deferred)),
        !matches_effective(orb, LifecycleFilter::Status(OrbStatus::Tombstone)),
        !matches_effective(orb, LifecycleFilter::Phase(phase)),
{
}

/// What is said of a name that stands for nothing.
pub proof fn law_name_messages(s: Seq<char>)
    ensures
        name_message(NameErrorView::UnknownEdgeType(s)) == "unknown edge type: "@ + s,
        name_message(NameErrorView::UnknownStatus(s)) == "unknown status: "@ + s,
        name_message(NameErrorView::UnknownPhase(s)) == "unknown phase: "@ + s,
{
}

/// The names that are shown for edge types.
pub proof fn law_edge_names()
    ensures
        edge_name(EdgeType::Blocks) == "blocks"@,
        edge_name(EdgeType::DependsOn) == "depends_on"@,
        edge_name(EdgeType::Parent) == "parent"@,
        edge_name(EdgeType::Child) == "child"@,
        edge_name(EdgeType::Related) == "related"@,
        edge_name(EdgeType::Duplicates) == "duplicates"@,
        edge_name(EdgeType::Follows) == "follows"@,
{
}

} // verus!

//! Second opinions on completed orbs.
//!
//! A second opinion looks at a completed orb and its result and gives a [`ReviewReport`] with
//! a [`ReviewVerdict`]. On `Revise`, the verdict's [`ReviseScope`] tells the pipeline whether
//! to re-execute the same plan (`Execution`) or re-plan the orb (`Decomposition`).

use vstd::prelude::*;

use crate::id::OrbId;
use crate::text::{clone_opt_text, opt_text};
use crate::time::Timestamp;

verus! {

/// Where the orb should re-enter the pipeline on a `Revise` verdict.
///
/// `Execution` means the plan was sound but something in the run itself went wrong: the orb
/// re-executes with the critique in context. `Decomposition` means the plan itself was
/// wrong: the orb returns to `Refining` to re-plan with the critique attached.
#[derive(Debug, Clone, Copy, PartialEq, Eq, Structural)]
pub enum ReviseScope {
    Execution,
    Decomposition,
}

impl Default for ReviseScope {
    fn default() -> (r: ReviseScope)
        ensures
            r == ReviseScope::Execution,
    {
        ReviseScope::Execution
    }
}

/// The verdict on a completed orb.
#[derive(Debug, Clone, Copy, PartialEq, Eq, Structural)]
pub enum ReviewVerdict {
    /// Result meets the bar; orb stays `Done`.
    Accept,
    /// Result is unrecoverable from this attempt; orb transitions to `Failed`.
    Reject,
    /// Result is salvageable; orb re-enters the pipeline at the scope indicated.
    Revise { scope: ReviseScope },
}

impl ReviewVerdict {
    /// Is the result accepted as it is?
    #[must_use]
    pub fn is_accept(&self) -> (r: bool)
        ensures
            r == (self is Accept),
    {
        matches!(self, ReviewVerdict::Accept)
    }

    /// Is the result rejected for good?
    #[must_use]
    pub fn is_reject(&self) -> (r: bool)
        ensures
            r == (self is Reject),
    {
        matches!(self, ReviewVerdict::Reject)
    }

    /// Is a revision asked for (any scope)?
    #[must_use]
    pub fn is_revise(&self) -> (r: bool)
        ensures
            r == (self is Revise),
    {
        matches!(self, ReviewVerdict::Revise { .. })
    }
}

/// The full report of a second opinion, stored on an orb.
#[derive(Debug)]
pub struct ReviewReport {
    /// The verdict (including revise scope when applicable).
    pub verdict: ReviewVerdict,
    /// Free-form critique of the result.
    pub critique: String,
    /// Optional concrete suggestions for what to change.
    pub suggested_changes: Option<String>,
    /// Name of the model that gave the opinion.
    pub reviewer_model: String,
    /// When the review completed.
    pub reviewed_at: Timestamp,
    /// Orb id of the second opinion, when it ran as an orb of its own.
    pub reviewer_orb_id: Option<OrbId>,
}

/// What a [`ReviewReport`] holds.
pub struct ReviewReportView {
    pub verdict: ReviewVerdict,
    pub critique: Seq<char>,
    pub suggested_changes: Option<Seq<char>>,
    pub reviewer_model: Seq<char>,
    pub reviewed_at: Timestamp,
    pub reviewer_orb_id: Option<Seq<char>>,
}

impl View for ReviewReport {
    type V = ReviewReportView;

    open spec fn view(&self) -> ReviewReportView {
        ReviewReportView {
            verdict: self.verdict,
            critique: self.critique@,
            suggested_changes: opt_text(self.suggested_changes),
            reviewer_model: self.reviewer_model@,
            reviewed_at: self.reviewed_at,
            reviewer_orb_id: match self.reviewer_orb_id {
                Some(id) => Some(id@),
                None => None,
            },
        }
    }
}

impl Clone for ReviewReport {
    fn clone(&self) -> (r: ReviewReport)
        ensures
            r@ == self@,
    {
        ReviewReport {
            verdict: self.verdict,
            critique: self.critique.clone(),
            suggested_changes: clone_opt_text(&self.suggested_changes),
            reviewer_model: self.reviewer_model.clone(),
            reviewed_at: self.reviewed_at,
            reviewer_orb_id: match &self.reviewer_orb_id {
                Some(id) => Some(id.clone()),
                None => None,
            },
        }
    }
}

} // verus!

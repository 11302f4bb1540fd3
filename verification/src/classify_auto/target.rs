//! The events that one verdict applies to.
use vstd::prelude::*;
use vstd::string::*;

use crate::text;

verus! {

/// The events that one verdict applies to.
#[derive(Debug)]
pub enum AssignmentTarget {
    /// A session that reaches the classifier for the first time.
    Session { session_id: String, prompt_count: u32 },
    /// A session revisited after it gained prompts.
    Recheck { session_id: String, prompt_count: u32 },
    /// A run of window-focus events that belong to no session.
    Events(Vec<String>),
}

impl AssignmentTarget {
    /// The session that the target is, where it is one.
    pub open spec fn session(self) -> Option<Seq<char>> {
        match self {
            AssignmentTarget::Session { session_id, .. } => Some(session_id@),
            AssignmentTarget::Recheck { session_id, .. } => Some(session_id@),
            AssignmentTarget::Events(_) => None,
        }
    }

    /// The name of the candidate in a log line: the session, or the first event of
    /// a run.
    pub fn label(&self) -> (r: &str)
        ensures
            r@ == match *self {
                AssignmentTarget::Events(ids) => if ids@.len() > 0 {
                    ids@[0]@
                } else {
                    "window-run"@
                },
                _ => self.session()->0,
            },
    {
        match self {
            AssignmentTarget::Session { session_id, .. } => session_id.as_str(),
            AssignmentTarget::Recheck { session_id, .. } => session_id.as_str(),
            AssignmentTarget::Events(ids) => if ids.len() > 0 {
                ids[0].as_str()
            } else {
                "window-run"
            },
        }
    }

    /// The scope that a proposal records: a session or events, never both.
    pub fn proposal_scope(&self) -> (r: (Option<String>, Option<Vec<String>>))
        ensures
            match *self {
                AssignmentTarget::Events(ids) => r.0 is None && (r.1 matches Some(listed)
                    && text::texts(listed@) == text::texts(ids@)),
                _ => text::opt_text(r.0) == self.session() && r.1 is None,
            },
    {
        match self {
            AssignmentTarget::Session { session_id, .. } => (Some(session_id.clone()), None),
            AssignmentTarget::Recheck { session_id, .. } => (Some(session_id.clone()), None),
            AssignmentTarget::Events(ids) => (None, Some(text::copy_texts(ids))),
        }
    }

    /// How much of a session the classifier has now seen, to be recorded once any
    /// of its events was assigned; a run of events records nothing.
    pub fn seen(&self, assigned: u64) -> (r: Option<(&str, u32)>)
        ensures
            match *self {
                AssignmentTarget::Session { session_id, prompt_count } => if assigned > 0 {
                    r matches Some(seen) && seen.0@ == session_id@ && seen.1 == prompt_count
                } else {
                    r is None
                },
                AssignmentTarget::Recheck { session_id, prompt_count } => if assigned > 0 {
                    r matches Some(seen) && seen.0@ == session_id@ && seen.1 == prompt_count
                } else {
                    r is None
                },
                AssignmentTarget::Events(_) => r is None,
            },
    {
        if assigned == 0 {
            return None;
        }
        match self {
            AssignmentTarget::Session { session_id, prompt_count } => Some(
                (session_id.as_str(), *prompt_count),
            ),
            AssignmentTarget::Recheck { session_id, prompt_count } => Some(
                (session_id.as_str(), *prompt_count),
            ),
            AssignmentTarget::Events(_) => None,
        }
    }
}

/// A target is the session that it names, first looked at or again, and a window run is
/// none.
pub proof fn targets_are_their_session(target: AssignmentTarget)
    ensures
        target matches AssignmentTarget::Session { session_id, .. } ==> target.session() == Some(
            session_id@,
        ),
        target matches AssignmentTarget::Recheck { session_id, .. } ==> target.session() == Some(
            session_id@,
        ),
        target is Events ==> target.session() is None,
{
}

} // verus!

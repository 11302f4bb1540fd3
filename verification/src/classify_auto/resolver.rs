//! What a classifier's verdict does: assign, propose for review, junk or refuse.
//!
//! The passes decide which candidates are looked at; this module decides what each
//! answer means. What only the database knows is asked for one question at a time.
use vstd::hash_map::StringHashMap;
use vstd::prelude::*;
use vstd::string::*;

use crate::classify_auto::target::AssignmentTarget;
use crate::classify_auto::AutoClassifyOutcome;
use crate::ids;
use crate::json;
use crate::json::JsonView;
use crate::text;
use crate::time;
use crate::time::Timestamp;

verus! {

/// The source under which the classifier's own choice is recorded.
pub const INFERRED_ASSIGNMENT_SOURCE: &'static str = "inferred";

/// What the classifier chose.
#[derive(Debug)]
pub enum StreamChoice {
    /// The candidate carries no work.
    Throwaway,
    /// The model answered and could not identify the work.
    Undetermined,
    /// The model used every call allowed without an answer.
    TurnsExhausted,
    /// A stream that is there already.
    Existing { stream_id: String },
    /// A stream that is to be named, by its name in normal form. `misnamed` says
    /// that the name describes no work.
    New { name: String, description: Option<String>, misnamed: bool },
}

/// A classifier's answer. `confident` says that its confidence reaches the
/// threshold from which answers are applied.
#[derive(Debug)]
pub struct Verdict {
    pub choice: StreamChoice,
    pub confident: bool,
}

/// What the database has answered so far.
#[derive(Clone, Copy, Debug, PartialEq, Eq, Structural)]
pub struct Facts {
    /// Whether the chosen stream is there.
    pub stream_exists: Option<bool>,
    /// Whether a human rejected the chosen stream for the session.
    pub rejected: Option<bool>,
    /// Whether a human rejected a new stream for the session.
    pub new_stream_rejected: Option<bool>,
    /// Whether an answer for the target is waiting for review.
    pub pending: Option<bool>,
}

/// What the database is asked.
#[derive(Debug)]
pub enum Question {
    /// Is the stream there?
    StreamExists(String),
    /// Did a human reject the stream for the session?
    WasRejected(String),
    /// Did a human reject a new stream for the session?
    WasNewStreamRejected,
    /// Is an answer for the target waiting for review?
    HasPending,
}

/// What is done with the target.
#[derive(Debug)]
pub enum Move {
    /// It goes to the junk stream.
    Junk,
    /// It stays unassigned: no work was identified.
    Decline,
    /// It stays unassigned: the calls were used up.
    SpentTurns,
    /// It stays unassigned: the chosen stream is gone.
    RefuseMissing(String),
    /// It stays unassigned: the name describes no work.
    RefuseName(String),
    /// It goes to the stream.
    Assign(String),
    /// It goes to the stream of this name, which is found or created.
    AssignNamed { name: String, description: Option<String> },
    /// It stays unassigned: a human rejected the answer before.
    Skip,
    /// It stays unassigned: an answer waits already, and is marked as given by this
    /// classifier.
    StampPending,
    /// The chosen stream is proposed for review.
    ProposeStream(String),
    /// A new stream is proposed for review.
    ProposeNew { name: String, description: Option<String> },
}

/// What comes next: a question, or what is done.
#[derive(Debug)]
pub enum Next {
    Ask(Question),
    Act(Move),
}

/// [`Question`] over texts.
pub enum QuestionView {
    StreamExists(Seq<char>),
    WasRejected(Seq<char>),
    WasNewStreamRejected,
    HasPending,
}

/// [`Move`] over texts.
pub enum MoveView {
    Junk,
    Decline,
    SpentTurns,
    RefuseMissing(Seq<char>),
    RefuseName(Seq<char>),
    Assign(Seq<char>),
    AssignNamed { name: Seq<char>, description: Option<Seq<char>> },
    Skip,
    StampPending,
    ProposeStream(Seq<char>),
    ProposeNew { name: Seq<char>, description: Option<Seq<char>> },
}

/// [`Next`] over texts.
pub enum NextView {
    Ask(QuestionView),
    Act(MoveView),
}

impl View for Question {
    type V = QuestionView;

    open spec fn view(&self) -> QuestionView {
        match *self {
            Question::StreamExists(id) => QuestionView::StreamExists(id@),
            Question::WasRejected(id) => QuestionView::WasRejected(id@),
            Question::WasNewStreamRejected => QuestionView::WasNewStreamRejected,
            Question::HasPending => QuestionView::HasPending,
        }
    }
}

impl View for Move {
    type V = MoveView;

    open spec fn view(&self) -> MoveView {
        match *self {
            Move::Junk => MoveView::Junk,
            Move::Decline => MoveView::Decline,
            Move::SpentTurns => MoveView::SpentTurns,
            Move::RefuseMissing(id) => MoveView::RefuseMissing(id@),
            Move::RefuseName(name) => MoveView::RefuseName(name@),
            Move::Assign(id) => MoveView::Assign(id@),
            Move::AssignNamed { name, description } => MoveView::AssignNamed {
                name: name@,
                description: text::opt_text(description),
            },
            Move::Skip => MoveView::Skip,
            Move::StampPending => MoveView::StampPending,
            Move::ProposeStream(id) => MoveView::ProposeStream(id@),
            Move::ProposeNew { name, description } => MoveView::ProposeNew {
                name: name@,
                description: text::opt_text(description),
            },
        }
    }
}

impl View for Next {
    type V = NextView;

    open spec fn view(&self) -> NextView {
        match *self {
            Next::Ask(question) => NextView::Ask(question@),
            Next::Act(act) => NextView::Act(act@),
        }
    }
}

/// A text without its white space.
pub open spec fn without_space(s: Seq<char>) -> Seq<char> {
    s.filter(|c: char| !text::is_space(c))
}

/// What comes next for an answer too weak to apply that is not rejected: it is
/// proposed unless one waits already.
pub open spec fn weak_next(facts: Facts, propose: MoveView) -> NextView {
    match facts.pending {
        None => NextView::Ask(QuestionView::HasPending),
        Some(true) => NextView::Act(MoveView::StampPending),
        Some(false) => NextView::Act(propose),
    }
}

/// What comes next for a verdict on a target, given what the database has answered.
pub open spec fn next_for(v: Verdict, target: AssignmentTarget, facts: Facts) -> NextView {
    match v.choice {
        StreamChoice::Throwaway => NextView::Act(MoveView::Junk),
        StreamChoice::Undetermined => NextView::Act(MoveView::Decline),
        StreamChoice::TurnsExhausted => NextView::Act(MoveView::SpentTurns),
        StreamChoice::Existing { stream_id } => {
            let id = without_space(stream_id@);
            match facts.stream_exists {
                None => NextView::Ask(QuestionView::StreamExists(id)),
                Some(false) => NextView::Act(MoveView::RefuseMissing(id)),
                Some(true) => if v.confident {
                    NextView::Act(MoveView::Assign(id))
                } else if target is Events {
                    weak_next(facts, MoveView::ProposeStream(id))
                } else {
                    match facts.rejected {
                        None => NextView::Ask(QuestionView::WasRejected(id)),
                        Some(true) => NextView::Act(MoveView::Skip),
                        Some(false) => weak_next(facts, MoveView::ProposeStream(id)),
                    }
                },
            }
        },
        StreamChoice::New { name, description, misnamed } => {
            let named = MoveView::AssignNamed {
                name: name@,
                description: text::opt_text(description),
            };
            let proposed = MoveView::ProposeNew {
                name: name@,
                description: text::opt_text(description),
            };
            if misnamed {
                NextView::Act(MoveView::RefuseName(name@))
            } else if !(target is Events) && facts.new_stream_rejected is None {
                NextView::Ask(QuestionView::WasNewStreamRejected)
            } else if !(target is Events) && facts.new_stream_rejected == Some(true) {
                NextView::Act(MoveView::Skip)
            } else if v.confident {
                NextView::Act(named)
            } else {
                weak_next(facts, proposed)
            }
        },
    }
}

/// A stream id without the white space that a model may put into it.
fn compact_id(id: &str) -> (r: String)
    ensures
        r@ == without_space(id@),
{
    let chars = text::chars_of(id);
    let ghost pred = |c: char| !text::is_space(c);
    let mut out = String::new();
    let mut i: usize = 0;
    proof {
        reveal(Seq::filter);
        assert(id@.take(0).filter(pred) =~= Seq::empty());
    }
    while i < chars.len()
        invariant
            i <= chars@.len(),
            chars@ == id@,
            pred == (|c: char| !text::is_space(c)),
            out@ == id@.take(i as int).filter(pred),
        decreases chars@.len() - i,
    {
        proof {
            reveal(Seq::filter);
            assert(id@.take(i + 1).drop_last() =~= id@.take(i as int));
        }
        if !text::space(chars[i]) {
            out.push(chars[i]);
        }
        i += 1;
    }
    proof {
        assert(id@.take(i as int) =~= id@);
    }
    out
}

/// Decides what comes next for a verdict on a target. Where it is a question, the
/// database's answer goes into `facts` and the verdict is looked at again.
pub fn next_step(verdict: &Verdict, target: &AssignmentTarget, facts: &Facts) -> (r: Next)
    ensures
        r@ == next_for(*verdict, *target, *facts),
{
    let on_events: bool = match target {
        AssignmentTarget::Events(_) => true,
        _ => false,
    };
    match &verdict.choice {
        StreamChoice::Throwaway => Next::Act(Move::Junk),
        StreamChoice::Undetermined => Next::Act(Move::Decline),
        StreamChoice::TurnsExhausted => Next::Act(Move::SpentTurns),
        StreamChoice::Existing { stream_id } => {
            let id = compact_id(stream_id.as_str());
            match facts.stream_exists {
                None => Next::Ask(Question::StreamExists(id)),
                Some(exists) => {
                    if !exists {
                        return Next::Act(Move::RefuseMissing(id));
                    }
                    if verdict.confident {
                        return Next::Act(Move::Assign(id));
                    }
                    if !on_events {
                        match facts.rejected {
                            None => {
                                return Next::Ask(Question::WasRejected(id));
                            },
                            Some(rejected) => {
                                if rejected {
                                    return Next::Act(Move::Skip);
                                }
                            },
                        }
                    }
                    match facts.pending {
                        None => Next::Ask(Question::HasPending),
                        Some(pending) => if pending {
                            Next::Act(Move::StampPending)
                        } else {
                            Next::Act(Move::ProposeStream(id))
                        },
                    }
                },
            }
        },
        StreamChoice::New { name, description, misnamed } => {
            if *misnamed {
                return Next::Act(Move::RefuseName(name.clone()));
            }
            if !on_events {
                match facts.new_stream_rejected {
                    None => {
                        return Next::Ask(Question::WasNewStreamRejected);
                    },
                    Some(rejected) => {
                        if rejected {
                            return Next::Act(Move::Skip);
                        }
                    },
                }
            }
            if verdict.confident {
                return Next::Act(
                    Move::AssignNamed { name: name.clone(), description: description.clone() },
                );
            }
            match facts.pending {
                None => Next::Ask(Question::HasPending),
                Some(pending) => if pending {
                    Next::Act(Move::StampPending)
                } else {
                    Next::Act(
                        Move::ProposeNew { name: name.clone(), description: description.clone() },
                    )
                },
            }
        },
    }
}

impl Facts {
    /// These facts and the answer to a question.
    pub open spec fn and(self, question: QuestionView, answer: bool) -> Facts {
        match question {
            QuestionView::StreamExists(_) => Facts { stream_exists: Some(answer), ..self },
            QuestionView::WasRejected(_) => Facts { rejected: Some(answer), ..self },
            QuestionView::WasNewStreamRejected => Facts {
                new_stream_rejected: Some(answer),
                ..self
            },
            QuestionView::HasPending => Facts { pending: Some(answer), ..self },
        }
    }

    /// How much is not known yet.
    pub open spec fn unknown(self) -> nat {
        (if self.stream_exists is None {
            1nat
        } else {
            0nat
        }) + (if self.rejected is None {
            1nat
        } else {
            0nat
        }) + (if self.new_stream_rejected is None {
            1nat
        } else {
            0nat
        }) + (if self.pending is None {
            1nat
        } else {
            0nat
        })
    }

    /// Nothing is known.
    pub fn none() -> (r: Facts)
        ensures
            r == (Facts {
                stream_exists: None,
                rejected: None,
                new_stream_rejected: None,
                pending: None,
            }),
    {
        Facts { stream_exists: None, rejected: None, new_stream_rejected: None, pending: None }
    }

    /// Takes in the answer to a question.
    pub fn learn(&mut self, question: &Question, answer: bool)
        ensures
            *final(self) == old(self).and(question@, answer),
    {
        match question {
            Question::StreamExists(_) => {
                self.stream_exists = Some(answer);
            },
            Question::WasRejected(_) => {
                self.rejected = Some(answer);
            },
            Question::WasNewStreamRejected => {
                self.new_stream_rejected = Some(answer);
            },
            Question::HasPending => {
                self.pending = Some(answer);
            },
        }
    }
}

/// No question is asked twice: an answer that was asked for leaves less unknown, so
/// every verdict comes to a move after a few questions.
pub proof fn questions_run_out(
    v: Verdict,
    target: AssignmentTarget,
    facts: Facts,
    question: QuestionView,
    answer: bool,
)
    requires
        next_for(v, target, facts) == NextView::Ask(question),
    ensures
        facts.and(question, answer).unknown() < facts.unknown(),
{
}

/// A stream is assigned only by a confident answer: to an existing stream only where
/// it is there, to a new one only where its name describes work; and a weak answer
/// is proposed, never applied.
pub proof fn only_confident_answers_are_applied(
    v: Verdict,
    target: AssignmentTarget,
    facts: Facts,
)
    ensures
        next_for(v, target, facts) matches NextView::Act(MoveView::Assign(id)) ==> v.confident
            && facts.stream_exists == Some(true) && (v.choice matches StreamChoice::Existing {
            stream_id,
        } && id == without_space(stream_id@)),
        next_for(v, target, facts) matches NextView::Act(MoveView::AssignNamed { name, .. })
            ==> v.confident && (v.choice matches StreamChoice::New {
            name: chosen,
            misnamed,
            ..
        } && name == chosen@ && !misnamed),
        next_for(v, target, facts) matches NextView::Act(MoveView::ProposeStream(_))
            ==> !v.confident && facts.pending == Some(false),
        next_for(v, target, facts) matches NextView::Act(MoveView::ProposeNew { .. })
            ==> !v.confident && facts.pending == Some(false),
{
}

/// What a human rejected for a session is neither assigned on a weak answer nor
/// proposed again.
pub proof fn rejected_answers_stay_rejected(v: Verdict, target: AssignmentTarget, facts: Facts)
    requires
        !(target is Events),
        v.choice is Existing ==> facts.stream_exists == Some(true) && facts.rejected == Some(true)
            && !v.confident,
        v.choice is New ==> facts.new_stream_rejected == Some(true) && !(v.choice->misnamed),
        v.choice is Existing || v.choice is New,
    ensures
        next_for(v, target, facts) == NextView::Act(MoveView::Skip),
{
}

impl AutoClassifyOutcome {
    /// This outcome and a move, with the events that it assigned and the proposals
    /// that it retired.
    pub open spec fn and(self, act: MoveView, assigned: u64, superseded: u64) -> AutoClassifyOutcome {
        let moved = AutoClassifyOutcome {
            assigned: (self.assigned + assigned) as u64,
            superseded: (self.superseded + superseded) as u64,
            ..self
        };
        let retired = AutoClassifyOutcome {
            superseded: (self.superseded + superseded) as u64,
            proposed: (self.proposed + 1) as u64,
            ..self
        };
        match act {
            MoveView::Junk => AutoClassifyOutcome { junked: (self.junked + 1) as u64, ..moved },
            MoveView::Decline => AutoClassifyOutcome {
                undetermined: (self.undetermined + 1) as u64,
                ..self
            },
            MoveView::SpentTurns => AutoClassifyOutcome {
                turns_exhausted: (self.turns_exhausted + 1) as u64,
                ..self
            },
            MoveView::RefuseMissing(_) => AutoClassifyOutcome {
                refused_missing_stream: (self.refused_missing_stream + 1) as u64,
                ..self
            },
            MoveView::RefuseName(_) => AutoClassifyOutcome {
                refused: (self.refused + 1) as u64,
                ..self
            },
            MoveView::Assign(_) => moved,
            MoveView::AssignNamed { .. } => moved,
            MoveView::Skip => AutoClassifyOutcome { skipped: (self.skipped + 1) as u64, ..self },
            MoveView::StampPending => AutoClassifyOutcome {
                skipped: (self.skipped + 1) as u64,
                ..self
            },
            MoveView::ProposeStream(_) => retired,
            MoveView::ProposeNew { .. } => retired,
        }
    }

    /// Counts a move, with the events that it assigned and the proposals that it
    /// retired.
    pub fn record(&mut self, act: &Move, assigned: u64, superseded: u64)
        requires
            old(self).assigned + assigned <= u64::MAX,
            old(self).superseded + superseded <= u64::MAX,
            old(self).junked < u64::MAX,
            old(self).undetermined < u64::MAX,
            old(self).turns_exhausted < u64::MAX,
            old(self).refused_missing_stream < u64::MAX,
            old(self).refused < u64::MAX,
            old(self).skipped < u64::MAX,
            old(self).proposed < u64::MAX,
        ensures
            *final(self) == old(self).and(act@, assigned, superseded),
    {
        match act {
            Move::Junk => {
                self.assigned = self.assigned + assigned;
                self.superseded = self.superseded + superseded;
                self.junked = self.junked + 1;
            },
            Move::Decline => {
                self.undetermined = self.undetermined + 1;
            },
            Move::SpentTurns => {
                self.turns_exhausted = self.turns_exhausted + 1;
            },
            Move::RefuseMissing(_) => {
                self.refused_missing_stream = self.refused_missing_stream + 1;
            },
            Move::RefuseName(_) => {
                self.refused = self.refused + 1;
            },
            Move::Assign(_) => {
                self.assigned = self.assigned + assigned;
                self.superseded = self.superseded + superseded;
            },
            Move::AssignNamed { .. } => {
                self.assigned = self.assigned + assigned;
                self.superseded = self.superseded + superseded;
            },
            Move::Skip => {
                self.skipped = self.skipped + 1;
            },
            Move::StampPending => {
                self.skipped = self.skipped + 1;
            },
            Move::ProposeStream(_) => {
                self.superseded = self.superseded + superseded;
                self.proposed = self.proposed + 1;
            },
            Move::ProposeNew { .. } => {
                self.superseded = self.superseded + superseded;
                self.proposed = self.proposed + 1;
            },
        }
    }
}

/// A verdict is never counted as a failure: whatever the model answered, the failed
/// calls and their causes stay as they were.
pub proof fn verdicts_are_no_failures(
    outcome: AutoClassifyOutcome,
    act: MoveView,
    assigned: u64,
    superseded: u64,
)
    ensures
        outcome.and(act, assigned, superseded).errors == outcome.errors,
        outcome.and(act, assigned, superseded).causes == outcome.causes,
{
}

/// The sessions that are still to be asked for their dependents.
#[verifier::ext_equal]
pub struct Lineage {
    pub visited: Set<Seq<char>>,
    pub pending: Seq<Seq<char>>,
}

impl Lineage {
    /// The next session to ask, and what is left then: the last pending one that
    /// was not asked yet.
    pub open spec fn next(self) -> Option<(Seq<char>, Lineage)>
        decreases self.pending.len(),
    {
        if self.pending.len() == 0 {
            None
        } else {
            let rest = Lineage { pending: self.pending.drop_last(), ..self };
            let id = self.pending.last();
            if self.visited.contains(id) {
                rest.next()
            } else {
                Some((id, Lineage { visited: self.visited.insert(id), ..rest }))
            }
        }
    }
}

/// A session is asked for its dependents at most once, a cycle of sessions
/// included: the next one was not asked before, and counts as asked from then on.
pub proof fn no_session_is_asked_twice(lineage: Lineage)
    ensures
        lineage.next() matches Some(step) ==> !lineage.visited.contains(step.0) && step.1.visited
            == lineage.visited.insert(step.0) && step.1.pending.len() < lineage.pending.len(),
        lineage.next() is None ==> (forall|i: int|
            0 <= i < lineage.pending.len() ==> lineage.visited.contains(
                #[trigger] lineage.pending[i],
            )),
    decreases lineage.pending.len(),
{
    if lineage.pending.len() > 0 && lineage.visited.contains(lineage.pending.last()) {
        let rest = Lineage { pending: lineage.pending.drop_last(), ..lineage };
        no_session_is_asked_twice(rest);
        assert forall|i: int| 0 <= i < rest.pending.len() implies rest.pending[i]
            == #[trigger] lineage.pending[i] by {}
        if lineage.next() is None {
            assert forall|i: int| 0 <= i < lineage.pending.len() implies lineage.visited.contains(
                #[trigger] lineage.pending[i],
            ) by {
                if i < rest.pending.len() {
                    assert(rest.visited.contains(rest.pending[i]));
                }
            }
        }
    }
}

/// A walk over the sessions that depend on a classified one, to give them its
/// stream.
pub struct InheritWalk {
    visited: StringHashMap<bool>,
    pending: Vec<String>,
}

impl View for InheritWalk {
    type V = Lineage;

    closed spec fn view(&self) -> Lineage {
        Lineage { visited: self.visited@.dom(), pending: text::texts(self.pending@) }
    }
}

impl InheritWalk {
    /// Starts at the classified session.
    pub fn start(parent_session_id: &str) -> (r: InheritWalk)
        ensures
            r@ == (Lineage { visited: Set::empty(), pending: seq![parent_session_id@] }),
    {
        let mut pending: Vec<String> = Vec::new();
        pending.push(parent_session_id.to_owned());
        let r = InheritWalk { visited: StringHashMap::new(), pending };
        proof {
            assert(r@.visited =~= Set::empty());
            assert(r@.pending =~= seq![parent_session_id@]);
        }
        r
    }

    /// The next session to ask for its dependents; `None` where the walk is over.
    pub fn next(&mut self) -> (r: Option<String>)
        ensures
            match old(self)@.next() {
                Some(step) => text::opt_text(r) == Some(step.0) && final(self)@ == step.1,
                None => r is None && final(self)@ == (Lineage {
                    pending: Seq::empty(),
                    ..old(self)@
                }),
            },
    {
        let ghost start = self@;
        while self.pending.len() > 0
            invariant
                start == old(self)@,
                start.next() == self@.next(),
                self@.visited == start.visited,
            decreases self.pending@.len(),
        {
            let ghost before = self@;
            let id = self.pending.pop();
            if let Some(id) = id {
                proof {
                    assert(before.pending.last() == id@);
                    assert(text::texts(self.pending@) =~= before.pending.drop_last());
                }
                if !self.visited.contains_key(id.as_str()) {
                    self.visited.insert(id.clone(), true);
                    proof {
                        assert(self@.visited =~= before.visited.insert(id@));
                        assert(self@ == (Lineage {
                            visited: before.visited.insert(id@),
                            pending: before.pending.drop_last(),
                        }));
                        assert(before.next() == Some((id@, self@)));
                    }
                    return Some(id);
                }
            }
        }
        proof {
            assert(self@.pending =~= Seq::empty());
        }
        None
    }

    /// Queues the dependents of the session that was asked.
    pub fn queue(&mut self, dependents: &Vec<String>)
        ensures
            final(self)@ == (Lineage {
                pending: old(self)@.pending + text::texts(dependents@),
                ..old(self)@
            }),
    {
        let ghost before = self@;
        let ghost more = text::texts(dependents@);
        let mut i: usize = 0;
        proof {
            assert(before.pending + more.take(0) =~= before.pending);
        }
        while i < dependents.len()
            invariant
                i <= dependents@.len(),
                more == text::texts(dependents@),
                self@ == (Lineage { pending: before.pending + more.take(i as int), ..before }),
            decreases dependents@.len() - i,
        {
            let ghost here = self@.pending;
            self.pending.push(dependents[i].clone());
            proof {
                assert(self@.pending =~= here.push(dependents@[i as int]@));
                assert(before.pending + more.take(i + 1) =~= (before.pending + more.take(
                    i as int,
                )).push(more[i as int]));
            }
            i += 1;
        }
        proof {
            assert(more.take(i as int) =~= more);
        }
    }
}

/// A stream as the model is shown it.
#[derive(Debug)]
pub struct StreamSummary {
    pub slug: Option<String>,
    pub id: String,
    pub name: Option<String>,
    pub description: Option<String>,
    pub tags: Vec<String>,
    pub first_active: Option<Timestamp>,
    pub last_active: Option<Timestamp>,
    /// The name in normal form, by which a stream is found again.
    pub match_name: Option<String>,
}

/// The id of the first stream in the roster that carries a name in normal form.
pub open spec fn listed_as(roster: Seq<StreamSummary>, name: Seq<char>) -> Option<Seq<char>>
    decreases roster.len(),
{
    if roster.len() == 0 {
        None
    } else {
        let before = listed_as(roster.drop_last(), name);
        if before is Some {
            before
        } else if text::opt_text(roster.last().match_name) == Some(name) {
            Some(roster.last().id@)
        } else {
            None
        }
    }
}

/// A stream that the database found.
#[derive(Debug)]
pub struct FoundStream {
    pub id: String,
    pub name: Option<String>,
    pub slug: Option<String>,
    pub description: Option<String>,
    /// The name in normal form.
    pub match_name: Option<String>,
}

/// What the database has said about a name so far: for each lookup, whether it was
/// made, and the stream that it found.
#[derive(Debug)]
pub struct NameFacts {
    /// The stream that carries the name.
    pub exact: Option<Option<FoundStream>>,
    /// The stream that covers what the name is about.
    pub near: Option<Option<FoundStream>>,
}

/// The stream that the database finds for a name: the one that carries it, or else one
/// near it.
pub open spec fn found_first(exact: Option<FoundStream>, near: Option<FoundStream>) -> Option<
    FoundStream,
> {
    match exact {
        Some(found) => Some(found),
        None => near,
    }
}

/// The id of the stream that a name is answered with, by the roster or else by what the
/// database finds; `None` where a stream is created for it.
pub open spec fn answered(
    roster: Seq<StreamSummary>,
    name: Seq<char>,
    exact: Option<FoundStream>,
    near: Option<FoundStream>,
) -> Option<Seq<char>> {
    match listed_as(roster, name) {
        Some(id) => Some(id),
        None => match found_first(exact, near) {
            Some(found) => Some(found.id@),
            None => None,
        },
    }
}

/// What a lookup found; nothing where it was not made.
pub open spec fn looked_up(lookup: Option<Option<FoundStream>>) -> Option<FoundStream> {
    match lookup {
        Some(found) => found,
        None => None,
    }
}

/// What comes next for the name of a stream.
#[derive(Debug)]
pub enum NameStep {
    /// The roster lists a stream of that name: it is reused.
    Reuse(String),
    /// The stream that carries the name is looked up.
    LookUpExact,
    /// The stream that covers what the name is about is looked up.
    LookUpNear,
    /// The stream found is reused.
    Adopt(FoundStream),
    /// There is none: it is created.
    Mint,
}

/// Decides what comes next for the name of a stream. The roster is asked first, then
/// the database for the very name, then for a stream near it; only then a stream is
/// created.
pub fn name_step(roster: &Vec<StreamSummary>, name: &str, facts: NameFacts) -> (r: NameStep)
    ensures
        match (listed_as(roster@, name@), facts.exact, facts.near) {
            (Some(id), _, _) => r matches NameStep::Reuse(found) && found@ == id,
            (None, None, _) => r is LookUpExact,
            (None, Some(Some(found)), _) => r == NameStep::Adopt(found),
            (None, Some(None), None) => r is LookUpNear,
            (None, Some(None), Some(Some(found))) => r == NameStep::Adopt(found),
            (None, Some(None), Some(None)) => r is Mint,
        },
        match r {
            NameStep::Reuse(id) => answered(
                roster@,
                name@,
                looked_up(facts.exact),
                looked_up(facts.near),
            ) == Some(id@),
            NameStep::Adopt(found) => answered(
                roster@,
                name@,
                looked_up(facts.exact),
                looked_up(facts.near),
            ) == Some(found.id@),
            NameStep::Mint => answered(
                roster@,
                name@,
                looked_up(facts.exact),
                looked_up(facts.near),
            ) is None,
            _ => true,
        },
{
    let mut i: usize = 0;
    while i < roster.len()
        invariant
            i <= roster@.len(),
            listed_as(roster@.take(i as int), name@) is None,
        decreases roster@.len() - i,
    {
        proof {
            assert(roster@.take(i + 1).drop_last() =~= roster@.take(i as int));
            assert(roster@.take(i + 1).last() == roster@[i as int]);
        }
        if let Some(listed) = &roster[i].match_name {
            if text::same(listed.as_str(), name) {
                proof {
                    listing_stays(roster@, name@, i + 1);
                }
                return NameStep::Reuse(roster[i].id.clone());
            }
        }
        i += 1;
    }
    proof {
        assert(roster@.take(i as int) =~= roster@);
    }
    match facts.exact {
        None => NameStep::LookUpExact,
        Some(Some(found)) => NameStep::Adopt(found),
        Some(None) => match facts.near {
            None => NameStep::LookUpNear,
            Some(Some(found)) => NameStep::Adopt(found),
            Some(None) => NameStep::Mint,
        },
    }
}

/// Streams behind one that carries a name do not take the name over.
proof fn listing_stays(roster: Seq<StreamSummary>, name: Seq<char>, k: int)
    requires
        0 <= k <= roster.len(),
        listed_as(roster.take(k), name) is Some,
    ensures
        listed_as(roster, name) == listed_as(roster.take(k), name),
    decreases roster.len(),
{
    if k == roster.len() {
        assert(roster.take(k) =~= roster);
    } else {
        assert(roster.drop_last().take(k) =~= roster.take(k));
        listing_stays(roster.drop_last(), name, k);
    }
}

/// Takes a stream that the database found into the roster, with its tags and the
/// period over which it was active.
pub fn adopt(
    roster: &mut Vec<StreamSummary>,
    found: FoundStream,
    tags: Vec<String>,
    first_active: Option<Timestamp>,
    last_active: Option<Timestamp>,
) -> (r: String)
    ensures
        r@ == found.id@,
        final(roster)@ == old(roster)@.push(
            (StreamSummary {
                slug: found.slug,
                id: found.id,
                name: found.name,
                description: found.description,
                tags,
                first_active,
                last_active,
                match_name: found.match_name,
            }),
        ),
{
    let id = found.id.clone();
    roster.push(
        StreamSummary {
            slug: found.slug,
            id: found.id,
            name: found.name,
            description: found.description,
            tags,
            first_active,
            last_active,
            match_name: found.match_name,
        },
    );
    id
}

/// For each stream with events, the period over which it was active, by its id.
pub type ActivityWindows = StringHashMap<(Timestamp, Timestamp)>;

/// Whether this is the entry of a stream that carries `tags`, active over the period
/// that `windows` has for it.
pub open spec fn is_entry_of(
    entry: StreamSummary,
    stream: FoundStream,
    tags: Vec<String>,
    windows: Map<Seq<char>, (Timestamp, Timestamp)>,
) -> bool {
    let seen = windows.contains_key(stream.id@);
    entry == (StreamSummary {
        slug: stream.slug,
        id: stream.id,
        name: stream.name,
        description: stream.description,
        tags,
        first_active: if seen {
            Some(windows[stream.id@].0)
        } else {
            None
        },
        last_active: if seen {
            Some(windows[stream.id@].1)
        } else {
            None
        },
        match_name: stream.match_name,
    })
}

/// Lists all streams for a classifier, each with its tags and the period over which
/// it was active. A stream without events has no such period.
pub fn list_streams(
    streams: Vec<(FoundStream, Vec<String>)>,
    windows: &ActivityWindows,
) -> (r: Vec<StreamSummary>)
    ensures
        r@.len() == streams@.len(),
        forall|i: int|
            0 <= i < r@.len() ==> is_entry_of(
                #[trigger] r@[i],
                streams@[i].0,
                streams@[i].1,
                windows@,
            ),
{
    let ghost all = streams@;
    let mut roster: Vec<StreamSummary> = Vec::new();
    for entry in it: streams
        invariant
            it.seq() == all,
            roster@.len() == it.index(),
            forall|i: int|
                0 <= i < roster@.len() ==> is_entry_of(
                    #[trigger] roster@[i],
                    all[i].0,
                    all[i].1,
                    windows@,
                ),
    {
        let (found, tags) = entry;
        let (first, last): (Option<Timestamp>, Option<Timestamp>) = match windows.get(
            found.id.as_str(),
        ) {
            Some(window) => (Some(window.0), Some(window.1)),
            None => (None, None),
        };
        adopt(&mut roster, found, tags, first, last);
    }
    roster
}

/// A stream that is to be created.
#[derive(Debug)]
pub struct MintedStream {
    pub id: String,
    pub name: String,
    pub description: Option<String>,
}

/// Creates a stream of a name under a fresh id and takes it into the roster, active
/// when the work that it is created for was.
pub fn mint(
    roster: &mut Vec<StreamSummary>,
    name: &str,
    description: &Option<String>,
    active_at: Option<Timestamp>,
) -> (r: MintedStream)
    ensures
        ids::is_hyphenated_id(r.id@),
        r.name@ == name@,
        text::opt_text(r.description) == text::opt_text(*description),
        final(roster)@.len() == old(roster)@.len() + 1,
        final(roster)@.drop_last() == old(roster)@,
        ({
            let listed = final(roster)@.last();
            &&& listed.id@ == r.id@
            &&& text::opt_text(listed.name) == Some(name@)
            &&& text::opt_text(listed.match_name) == Some(name@)
            &&& text::opt_text(listed.description) == text::opt_text(*description)
            &&& listed.slug is None
            &&& listed.tags@.len() == 0
            &&& listed.first_active == active_at
            &&& listed.last_active == active_at
        }),
        listed_as(old(roster)@, name@) is None ==> listed_as(final(roster)@, name@) == Some(r.id@),
{
    let id = ids::fresh_id();
    let ghost before = roster@;
    roster.push(
        StreamSummary {
            slug: None,
            id: id.clone(),
            name: Some(name.to_owned()),
            description: description.clone(),
            tags: Vec::new(),
            first_active: active_at,
            last_active: active_at,
            match_name: Some(name.to_owned()),
        },
    );
    proof {
        assert(roster@.drop_last() =~= before);
    }
    MintedStream { id, name: name.to_owned(), description: description.clone() }
}

/// A name that the roster lists is answered from it from then on, with the same stream,
/// whatever else the roster takes in.
pub proof fn a_listed_name_stays_listed(
    roster: Seq<StreamSummary>,
    more: Seq<StreamSummary>,
    name: Seq<char>,
)
    requires
        listed_as(roster, name) is Some,
    ensures
        listed_as(roster + more, name) == listed_as(roster, name),
{
    assert((roster + more).take(roster.len() as int) =~= roster);
    listing_stays(roster + more, name, roster.len() as int);
}

proof fn listing_goes_on(roster: Seq<StreamSummary>, more: Seq<StreamSummary>, name: Seq<char>)
    ensures
        listed_as(roster + more, name) == if listed_as(roster, name) is Some {
            listed_as(roster, name)
        } else {
            listed_as(more, name)
        },
    decreases more.len(),
{
    if more.len() == 0 {
        assert(roster + more =~= roster);
    } else {
        assert((roster + more).drop_last() =~= roster + more.drop_last());
        listing_goes_on(roster, more.drop_last(), name);
    }
}

/// Whether this is the entry that the roster takes in for a name that it does not list:
/// that of the stream which the database finds, or of one that is created under the
/// name.
pub open spec fn is_taken_in(
    entry: StreamSummary,
    name: Seq<char>,
    exact: Option<FoundStream>,
    near: Option<FoundStream>,
) -> bool {
    match found_first(exact, near) {
        Some(found) => entry.id@ == found.id@ && text::opt_text(entry.match_name)
            == text::opt_text(found.match_name),
        None => text::opt_text(entry.match_name) == Some(name),
    }
}

/// A name that was answered once gets the same stream again, and no second one is
/// created for it: one that the roster lists then, from the roster, and one whose stream
/// goes by another name, from the database, as long as that answers as before. In
/// between the roster may take in other streams; where the database has none that
/// carries the name, neither have they.
pub proof fn an_answered_name_keeps_its_stream(
    roster: Seq<StreamSummary>,
    name: Seq<char>,
    exact: Option<FoundStream>,
    near: Option<FoundStream>,
    entry: StreamSummary,
    more: Seq<StreamSummary>,
)
    requires
        listed_as(roster, name) is None ==> is_taken_in(entry, name, exact, near),
        listed_as(roster, name) is None && text::opt_text(entry.match_name) != Some(name)
            ==> listed_as(more, name) is None,
    ensures
        ({
            let first = match answered(roster, name, exact, near) {
                Some(id) => id,
                None => entry.id@,
            };
            let then = if listed_as(roster, name) is Some {
                roster
            } else {
                roster.push(entry)
            };
            answered(then + more, name, exact, near) == Some(first)
        }),
{
    if listed_as(roster, name) is Some {
        listing_goes_on(roster, more, name);
    } else {
        let then = roster.push(entry);
        assert(then.drop_last() =~= roster);
        listing_goes_on(then, more, name);
    }
}

/// What a proposal of a new stream holds: its name, its description, and no tags yet.
pub open spec fn proposal(name: Seq<char>, description: Option<Seq<char>>) -> JsonView {
    JsonView::Object(
        map![
            "name"@ => JsonView::Text(name),
            "description"@ => match description {
                Some(text) => JsonView::Text(text),
                None => JsonView::Null,
            },
            "tags"@ => JsonView::Array(Seq::empty()),
        ],
    )
}

/// Writes the proposal of a new stream as JSON.
pub fn proposal_text(name: &str, description: &Option<String>) -> (r: String)
    ensures
        r@ == json::written_json(proposal(name@, text::opt_text(*description))),
        json::keeps_texts(r@, proposal(name@, text::opt_text(*description))),
{
    let mut value = json::text_or_null(None);
    json::put_text(&mut value, "name", name);
    json::put(&mut value, "description", json::text_or_null(description.clone()));
    json::put(&mut value, "tags", json::array_of_texts(Vec::new()));
    proof {
        let members = json::content(value)->Object_0;
        let expected = proposal(name@, text::opt_text(*description))->Object_0;
        assert(members["tags"@]->Array_0 =~= Seq::empty());
        assert(members =~= expected);
    }
    json::write_json(&value).unwrap()
}

/// An answer as it is filed for review.
#[derive(Debug)]
pub struct ProposalDraft {
    pub id: String,
    pub session_id: Option<String>,
    pub event_ids: Option<Vec<String>>,
    pub proposed_stream_id: Option<String>,
    pub proposed_new_stream: Option<String>,
}

impl ProposalDraft {
    /// Whether this is filed for a target: for its session or for its events.
    pub open spec fn is_for(self, target: AssignmentTarget) -> bool {
        match target {
            AssignmentTarget::Events(ids) => self.session_id is None && (
            self.event_ids matches Some(listed) && text::texts(listed@) == text::texts(ids@)),
            _ => text::opt_text(self.session_id) == target.session() && self.event_ids is None,
        }
    }
}

/// Drafts the proposal that a move files for a target, under a fresh id; `None` for a
/// move that files none. The stream is named by its id, or in JSON where it is new.
pub fn draft_proposal(target: &AssignmentTarget, act: &Move) -> (r: Option<ProposalDraft>)
    ensures
        match act@ {
            MoveView::ProposeStream(id) => r matches Some(draft) && ids::is_hyphenated_id(
                draft.id@,
            ) && draft.is_for(*target) && text::opt_text(draft.proposed_stream_id) == Some(id)
                && draft.proposed_new_stream is None,
            MoveView::ProposeNew { name, description } => r matches Some(draft)
                && ids::is_hyphenated_id(draft.id@) && draft.is_for(*target)
                && draft.proposed_stream_id is None && text::opt_text(draft.proposed_new_stream)
                == Some(json::written_json(proposal(name, description))),
            _ => r is None,
        },
{
    let (proposed_stream_id, proposed_new_stream): (Option<String>, Option<String>) = match act {
        Move::ProposeStream(id) => (Some(id.clone()), None),
        Move::ProposeNew { name, description } => (
            None,
            Some(proposal_text(name.as_str(), description)),
        ),
        _ => {
            return None;
        },
    };
    let (session_id, event_ids) = target.proposal_scope();
    Some(
        ProposalDraft {
            id: ids::fresh_id(),
            session_id,
            event_ids,
            proposed_stream_id,
            proposed_new_stream,
        },
    )
}

impl AutoClassifyOutcome {
    /// The candidates that were looked at and not assigned, or junked.
    pub open spec fn set_aside(self) -> int {
        self.junked + self.undetermined + self.turns_exhausted + self.refused_missing_stream
            + self.refused + self.skipped + self.proposed
    }
}

/// Every move but an assignment is counted once, in a bucket of its own, and only
/// junk and assignments count events as assigned.
pub proof fn moves_are_counted_once(
    outcome: AutoClassifyOutcome,
    act: MoveView,
    assigned: u64,
    superseded: u64,
)
    requires
        outcome.set_aside() < u64::MAX,
        outcome.assigned + assigned <= u64::MAX,
        outcome.superseded + superseded <= u64::MAX,
    ensures
        outcome.and(act, assigned, superseded).set_aside() == outcome.set_aside() + (if act
            is Assign || act is AssignNamed {
            0int
        } else {
            1int
        }),
        outcome.and(act, assigned, superseded).assigned == outcome.assigned + (if act is Assign
            || act is AssignNamed || act is Junk {
            assigned as int
        } else {
            0int
        }),
{
}

/// Only an answer that the candidate carries no work puts it on the junk stream, and such
/// an answer always does, on whatever target and with whatever confidence. An answer that
/// identified nothing leaves it, and so does one for which the calls ran out.
pub proof fn junk_is_what_carries_no_work(v: Verdict, target: AssignmentTarget, facts: Facts)
    ensures
        next_for(v, target, facts) == NextView::Act(MoveView::Junk) <==> v.choice is Throwaway,
        next_for(v, target, facts) == NextView::Act(MoveView::Decline) <==> v.choice
            is Undetermined,
        next_for(v, target, facts) == NextView::Act(MoveView::SpentTurns) <==> v.choice
            is TurnsExhausted,
{
}

/// Whether everything that may be asked is known.
pub open spec fn all_known(facts: Facts) -> bool {
    facts.stream_exists is Some && facts.rejected is Some && facts.new_stream_rejected is Some
        && facts.pending is Some
}

/// A new stream whose name describes work, and that nobody rejected for the session, is
/// assigned on a confident answer, under the name and the description that were chosen.
/// On a weak one it is proposed so, or the answer that waits is marked. A window run has
/// no session that could have been rejected. A name that describes no work is refused.
pub proof fn new_streams_are_assigned_or_proposed(
    v: Verdict,
    target: AssignmentTarget,
    facts: Facts,
    name: String,
    description: Option<String>,
    misnamed: bool,
)
    requires
        v.choice == (StreamChoice::New { name, description, misnamed }),
    ensures
        misnamed ==> next_for(v, target, facts) == NextView::Act(MoveView::RefuseName(name@)),
        next_for(v, target, facts) is Act && next_for(v, target, facts)->Act_0 is RefuseName
            ==> misnamed,
        !misnamed && (target is Events || facts.new_stream_rejected == Some(false)) ==> {
            &&& v.confident ==> next_for(v, target, facts) == NextView::Act(
                MoveView::AssignNamed {
                    name: name@,
                    description: match description {
                        Some(text) => Some(text@),
                        None => None,
                    },
                },
            )
            &&& !v.confident && facts.pending == Some(false) ==> next_for(v, target, facts)
                == NextView::Act(
                MoveView::ProposeNew {
                    name: name@,
                    description: match description {
                        Some(text) => Some(text@),
                        None => None,
                    },
                },
            )
            &&& !v.confident && facts.pending == Some(true) ==> next_for(v, target, facts)
                == NextView::Act(MoveView::StampPending)
            &&& !v.confident && facts.pending is None ==> next_for(v, target, facts)
                == NextView::Ask(QuestionView::HasPending)
        },
        !misnamed && !(target is Events) && facts.new_stream_rejected == Some(true) ==> next_for(
            v,
            target,
            facts,
        ) == NextView::Act(MoveView::Skip),
        !misnamed && !(target is Events) && facts.new_stream_rejected is None ==> next_for(
            v,
            target,
            facts,
        ) == NextView::Ask(QuestionView::WasNewStreamRejected),
{
}

/// A stream that was chosen and is there is assigned on a confident answer. On a weak one
/// it is proposed, or the answer that waits is marked, unless it was rejected for the
/// session. One that is gone is refused. The stream is the one that was chosen, without
/// the white space in its id.
pub proof fn existing_streams_are_assigned_or_proposed(
    v: Verdict,
    target: AssignmentTarget,
    facts: Facts,
    stream_id: String,
)
    requires
        v.choice == (StreamChoice::Existing { stream_id }),
    ensures
        facts.stream_exists is None ==> next_for(v, target, facts) == NextView::Ask(
            QuestionView::StreamExists(without_space(stream_id@)),
        ),
        facts.stream_exists == Some(false) ==> next_for(v, target, facts) == NextView::Act(
            MoveView::RefuseMissing(without_space(stream_id@)),
        ),
        facts.stream_exists == Some(true) && v.confident ==> next_for(v, target, facts)
            == NextView::Act(MoveView::Assign(without_space(stream_id@))),
        facts.stream_exists == Some(true) && !v.confident && !(target is Events)
            && facts.rejected is None ==> next_for(v, target, facts) == NextView::Ask(
            QuestionView::WasRejected(without_space(stream_id@)),
        ),
        facts.stream_exists == Some(true) && !v.confident && !(target is Events)
            && facts.rejected == Some(true) ==> next_for(v, target, facts) == NextView::Act(
            MoveView::Skip,
        ),
        facts.stream_exists == Some(true) && !v.confident && (target is Events || facts.rejected
            == Some(false)) ==> {
            &&& facts.pending == Some(false) ==> next_for(v, target, facts) == NextView::Act(
                MoveView::ProposeStream(without_space(stream_id@)),
            )
            &&& facts.pending == Some(true) ==> next_for(v, target, facts) == NextView::Act(
                MoveView::StampPending,
            )
            &&& facts.pending is None ==> next_for(v, target, facts) == NextView::Ask(
                QuestionView::HasPending,
            )
        },
{
}

/// What is known decides: where everything is known nothing is asked, and a move that was
/// decided stays decided whatever else becomes known.
pub proof fn decisions_stand(
    v: Verdict,
    target: AssignmentTarget,
    facts: Facts,
    question: QuestionView,
    answer: bool,
)
    ensures
        all_known(facts) ==> next_for(v, target, facts) is Act,
        next_for(v, target, facts) is Act && facts.and(question, answer).unknown()
            < facts.unknown() ==> next_for(v, target, facts.and(question, answer)) == next_for(
            v,
            target,
            facts,
        ),
{
}

/// The answer to a question is what is known of it from then on, and of nothing else.
pub proof fn answers_are_taken_as_asked(facts: Facts, id: Seq<char>, answer: bool)
    ensures
        ({
            let exists = facts.and(QuestionView::StreamExists(id), answer);
            let rejected = facts.and(QuestionView::WasRejected(id), answer);
            let new_rejected = facts.and(QuestionView::WasNewStreamRejected, answer);
            let pending = facts.and(QuestionView::HasPending, answer);
            &&& exists.stream_exists == Some(answer) && rejected.rejected == Some(answer)
            &&& new_rejected.new_stream_rejected == Some(answer) && pending.pending == Some(answer)
            &&& rejected.stream_exists == facts.stream_exists && new_rejected.stream_exists
                == facts.stream_exists && pending.stream_exists == facts.stream_exists
            &&& exists.rejected == facts.rejected && new_rejected.rejected == facts.rejected
                && pending.rejected == facts.rejected
            &&& exists.new_stream_rejected == facts.new_stream_rejected
                && rejected.new_stream_rejected == facts.new_stream_rejected
                && pending.new_stream_rejected == facts.new_stream_rejected
            &&& exists.pending == facts.pending && rejected.pending == facts.pending
                && new_rejected.pending == facts.pending
        }),
{
}

/// Taking the white space out of an id takes out nothing else, and changes no order: an
/// id without any stays, and what is written one behind the other stays so.
pub proof fn only_space_is_taken_out(a: Seq<char>, b: Seq<char>)
    ensures
        without_space(a + b) == without_space(a) + without_space(b),
        (forall|i: int| 0 <= i < a.len() ==> !text::is_space(#[trigger] a[i])) ==> without_space(a)
            == a,
        (forall|i: int| 0 <= i < a.len() ==> text::is_space(#[trigger] a[i])) ==> without_space(
            a,
        ).len() == 0,
    decreases a.len() + b.len(),
{
    reveal(Seq::filter);
    if b.len() > 0 {
        assert((a + b).drop_last() =~= a + b.drop_last());
        only_space_is_taken_out(a, b.drop_last());
        assert(without_space(a + b) =~= without_space(a) + without_space(b));
    } else if a.len() > 0 {
        only_space_is_taken_out(a.drop_last(), b);
        assert(a + b =~= a);
        assert(without_space(b) =~= Seq::empty());
        if forall|i: int| 0 <= i < a.len() ==> !text::is_space(#[trigger] a[i]) {
            assert(!text::is_space(a[a.len() - 1]));
            assert forall|i: int| 0 <= i < a.drop_last().len() implies !text::is_space(
                #[trigger] a.drop_last()[i],
            ) by {
                assert(!text::is_space(a[i]));
            }
            assert(without_space(a) =~= a);
        }
        if forall|i: int| 0 <= i < a.len() ==> text::is_space(#[trigger] a[i]) {
            assert(text::is_space(a[a.len() - 1]));
            assert forall|i: int| 0 <= i < a.drop_last().len() implies text::is_space(
                #[trigger] a.drop_last()[i],
            ) by {
                assert(text::is_space(a[i]));
            }
        }
    } else {
        assert(a + b =~= a);
        assert(without_space(a) =~= Seq::empty());
        assert(without_space(b) =~= Seq::empty());
        assert(a =~= Seq::empty());
    }
}

/// One if so, and nothing otherwise.
pub open spec fn once(so: bool) -> int {
    if so {
        1
    } else {
        0
    }
}

/// Each move is counted under what it is, and nowhere else. Events are counted as
/// assigned where the move assigns them, to a stream or to junk, and proposals as
/// superseded where it does so or files one of its own.
pub proof fn moves_are_counted_as_what_they_are(
    outcome: AutoClassifyOutcome,
    act: MoveView,
    assigned: u64,
    superseded: u64,
)
    requires
        outcome.set_aside() < u64::MAX,
        outcome.assigned + assigned <= u64::MAX,
        outcome.superseded + superseded <= u64::MAX,
    ensures
        ({
            let after = outcome.and(act, assigned, superseded);
            let assigns = act is Assign || act is AssignNamed || act is Junk;
            let proposes = act is ProposeStream || act is ProposeNew;
            &&& after.junked - outcome.junked == once(act is Junk)
            &&& after.undetermined - outcome.undetermined == once(act is Decline)
            &&& after.turns_exhausted - outcome.turns_exhausted == once(act is SpentTurns)
            &&& after.refused_missing_stream - outcome.refused_missing_stream == once(
                act is RefuseMissing,
            )
            &&& after.refused - outcome.refused == once(act is RefuseName)
            &&& after.skipped - outcome.skipped == once(act is Skip || act is StampPending)
            &&& after.proposed - outcome.proposed == once(proposes)
            &&& after.assigned - outcome.assigned == assigned * once(assigns)
            &&& after.superseded - outcome.superseded == superseded * once(assigns || proposes)
            &&& after.skipped_answered == outcome.skipped_answered
        }),
{
    assert(assigned * 1 == assigned && superseded * 1 == superseded);
    assert(assigned * 0 == 0 && superseded * 0 == 0);
}

/// The next session to be asked for its dependents is the last one pending that was not
/// asked yet: all behind it were, and those before it stay pending.
pub proof fn the_last_unasked_session_is_next(lineage: Lineage) -> (k: int)
    ensures
        lineage.next() matches Some(step) ==> 0 <= k < lineage.pending.len() && step.0
            == lineage.pending[k] && step.1.pending == lineage.pending.take(k) && (forall|i: int|
            k < i < lineage.pending.len() ==> lineage.visited.contains(
                #[trigger] lineage.pending[i],
            )),
    decreases lineage.pending.len(),
{
    if lineage.pending.len() == 0 {
        0
    } else if lineage.visited.contains(lineage.pending.last()) {
        let rest = Lineage { pending: lineage.pending.drop_last(), ..lineage };
        let k = the_last_unasked_session_is_next(rest);
        if lineage.next() is Some {
            assert(rest.pending.take(k) =~= lineage.pending.take(k));
            assert forall|i: int| k < i < lineage.pending.len() implies lineage.visited.contains(
                #[trigger] lineage.pending[i],
            ) by {
                if i < rest.pending.len() {
                    assert(rest.visited.contains(rest.pending[i]));
                }
            }
        }
        k
    } else {
        assert(lineage.pending.drop_last() =~= lineage.pending.take(lineage.pending.len() - 1));
        lineage.pending.len() - 1
    }
}

/// A name is listed where some stream in the roster carries it, and then as the first
/// that does.
pub proof fn the_first_of_a_name_is_listed(roster: Seq<StreamSummary>, name: Seq<char>) -> (k: int)
    ensures
        listed_as(roster, name) is None <==> (forall|i: int|
            0 <= i < roster.len() ==> text::opt_text((#[trigger] roster[i]).match_name) != Some(
                name,
            )),
        listed_as(roster, name) matches Some(id) ==> 0 <= k < roster.len() && roster[k].id@ == id
            && text::opt_text(roster[k].match_name) == Some(name) && (forall|i: int|
            0 <= i < k ==> text::opt_text((#[trigger] roster[i]).match_name) != Some(name)),
    decreases roster.len(),
{
    if roster.len() == 0 {
        0
    } else {
        let earlier = roster.drop_last();
        let last = roster.len() - 1;
        let k = the_first_of_a_name_is_listed(earlier, name);
        assert forall|i: int| 0 <= i < last implies earlier[i] == #[trigger] roster[i] by {}
        if listed_as(earlier, name) is Some {
            assert(text::opt_text(roster[k].match_name) == Some(name));
            k
        } else {
            assert forall|i: int| 0 <= i < last implies text::opt_text(
                (#[trigger] roster[i]).match_name,
            ) != Some(name) by {
                assert(text::opt_text(earlier[i].match_name) != Some(name));
            }
            if listed_as(roster, name) is Some {
                assert(text::opt_text(roster[last].match_name) == Some(name));
            }
            last
        }
    }
}

/// A stream that carries the very name answers before one that is only near it, and the
/// roster before both; only where none answers a stream is created.
pub proof fn the_closest_stream_answers(
    roster: Seq<StreamSummary>,
    name: Seq<char>,
    exact: Option<FoundStream>,
    near: Option<FoundStream>,
)
    ensures
        listed_as(roster, name) is Some ==> answered(roster, name, exact, near) == listed_as(
            roster,
            name,
        ),
        listed_as(roster, name) is None ==> (exact matches Some(found) ==> answered(
            roster,
            name,
            exact,
            near,
        ) == Some(found.id@)),
        listed_as(roster, name) is None && exact is None ==> (near matches Some(found) ==> answered(
            roster,
            name,
            exact,
            near,
        ) == Some(found.id@)),
        answered(roster, name, exact, near) is None <==> listed_as(roster, name) is None && exact
            is None && near is None,
{
}

/// What a proposal of a new stream tells: the name and the description that were chosen,
/// and no tags. Without a description it says so.
pub proof fn proposals_tell_what_was_chosen(name: Seq<char>, description: Option<Seq<char>>)
    ensures
        proposal(name, description).text_at("name"@) == Some(name),
        description is Some ==> proposal(name, description).text_at("description"@)
            == description,
        description is None ==> proposal(name, description).member("description"@) == Some(
            JsonView::Null,
        ),
        proposal(name, description).member("tags"@) matches Some(tags) && tags.items() matches Some(
            items,
        ) && items.len() == 0,
{
    reveal_strlit("name");
    reveal_strlit("description");
    reveal_strlit("tags");
    assert("name"@.len() != "description"@.len() && "tags"@.len() != "description"@.len());
    assert("name"@[0] != "tags"@[0]);
    let members = proposal(name, description)->Object_0;
    assert(members["name"@] == JsonView::Text(name));
    assert(members.contains_key("tags"@));
}

/// What comes next is what its view says, kind for kind and with the same texts: a
/// question asks for what it names, and a move moves to what it names.
pub proof fn steps_are_what_they_say(r: Next)
    ensures
        r@ is Act <==> r is Act,
        r matches Next::Ask(question) ==> (r@ matches NextView::Ask(asked) && match question {
            Question::StreamExists(id) => asked == QuestionView::StreamExists(id@),
            Question::WasRejected(id) => asked == QuestionView::WasRejected(id@),
            Question::WasNewStreamRejected => asked == QuestionView::WasNewStreamRejected,
            Question::HasPending => asked == QuestionView::HasPending,
        }),
        r matches Next::Act(act) ==> (r@ matches NextView::Act(done) && match act {
            Move::Junk => done == MoveView::Junk,
            Move::Decline => done == MoveView::Decline,
            Move::SpentTurns => done == MoveView::SpentTurns,
            Move::RefuseMissing(id) => done == MoveView::RefuseMissing(id@),
            Move::RefuseName(name) => done == MoveView::RefuseName(name@),
            Move::Assign(id) => done == MoveView::Assign(id@),
            Move::AssignNamed { name, description } => done is AssignNamed
                && done->AssignNamed_name == name@ && done->AssignNamed_description
                == text::opt_text(description),
            Move::Skip => done == MoveView::Skip,
            Move::StampPending => done == MoveView::StampPending,
            Move::ProposeStream(id) => done == MoveView::ProposeStream(id@),
            Move::ProposeNew { name, description } => done is ProposeNew && done->ProposeNew_name
                == name@ && done->ProposeNew_description == text::opt_text(description),
        }),
{
}

/// A stream is listed as it was found, with the tags that it carries and from the first to
/// the last of the times that it was active; without such times where it never was.
pub proof fn streams_are_listed_as_found(
    entry: StreamSummary,
    stream: FoundStream,
    tags: Vec<String>,
    windows: Map<Seq<char>, (Timestamp, Timestamp)>,
)
    requires
        is_entry_of(entry, stream, tags, windows),
    ensures
        entry.id@ == stream.id@,
        text::opt_text(entry.slug) == text::opt_text(stream.slug),
        text::opt_text(entry.name) == text::opt_text(stream.name),
        text::opt_text(entry.description) == text::opt_text(stream.description),
        text::opt_text(entry.match_name) == text::opt_text(stream.match_name),
        text::texts(entry.tags@) == text::texts(tags@),
        windows.contains_key(stream.id@) ==> time::opt_instant(entry.first_active) == Some(
            windows[stream.id@].0@,
        ) && time::opt_instant(entry.last_active) == Some(windows[stream.id@].1@),
        !windows.contains_key(stream.id@) ==> entry.first_active is None && entry.last_active
            is None,
{
}

/// A proposal is filed for the session that it is about, or for the events of a window
/// run, in their order, and never for both.
pub proof fn proposals_are_filed_for_their_target(draft: ProposalDraft, target: AssignmentTarget)
    requires
        draft.is_for(target),
    ensures
        draft.session_id is Some <==> draft.event_ids is None,
        target matches AssignmentTarget::Session { session_id, .. } ==> text::opt_text(
            draft.session_id,
        ) == Some(session_id@),
        target matches AssignmentTarget::Recheck { session_id, .. } ==> text::opt_text(
            draft.session_id,
        ) == Some(session_id@),
        target matches AssignmentTarget::Events(ids) ==> draft.event_ids is Some && text::texts(
            draft.event_ids->0@,
        ) == text::texts(ids@),
{
}

/// A lookup that was made gives what it found, and one that was not made gives nothing.
pub proof fn lookups_give_what_they_found(found: FoundStream)
    ensures
        looked_up(Some(Some(found))) == Some(found),
        looked_up(Some(None)) is None,
        looked_up(None) is None,
{
}

} // verus!

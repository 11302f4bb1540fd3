//! Automatic classification: which candidates a pass asks the model about, and what
//! a pass reports.
//!
//! Three rules keep it safe to leave running:
//!
//! - **Recency first, bounded pass.** Candidates arrive newest first and each pass is
//!   capped, so today's work is reached before a backlog.
//! - **Subagents never reach the model.** A subagent serves its parent's task, so it
//!   inherits the stream that its parent resolved to.
//! - **Junk before asking.** A session that cannot carry work is routed to the
//!   reserved junk stream without a call.
//!
//! A fourth keeps it diagnosable: a failed call is counted against the cause that its
//! error names. A model that answered and could not identify the work has not failed.
pub mod context_provider;
pub mod resolver;
pub mod session_detail;
pub mod target;
pub mod window_runs;

use vstd::prelude::*;
use vstd::string::*;

use crate::classify_auto::window_runs::{newest_first, WindowRun};
use crate::model::AgentSession;
use crate::order;
use crate::text;
use crate::time;
use crate::time::Timestamp;

verus! {

/// Sessions that one pass may look at.
pub const SESSIONS_PER_PASS: usize = 200;

/// Structurally junk sessions that one pass may route before it selects candidates.
pub const JUNK_ROUTING_PER_PASS: usize = 5000;

/// Session classifications that one pass runs at the same time.
pub const CLASSIFY_CONCURRENCY: usize = 8;

/// Window-focus runs that one pass may look at.
pub const WINDOW_RUNS_PER_PASS: usize = 101;

/// What a failed call failed on.
#[derive(Clone, Copy, Debug, PartialEq, Eq, Structural)]
pub enum FailureCause {
    /// Something that no retry could change.
    Api,
    /// The provider stayed overloaded until the retry allowance ran out.
    Overloaded,
    /// The provider never answered, or the time ran out.
    Timeout,
    /// The model answered with something that is not a verdict.
    Parse,
    /// No key was configured for the call.
    MissingApiKey,
}

/// Why classifier calls failed, by cause.
#[derive(Clone, Copy, Debug, PartialEq, Eq, Structural)]
pub struct ErrorCauses {
    /// The call failed on something that no retry could change.
    pub api: u64,
    /// The provider kept refusing until the retry allowance ran out.
    pub overloaded: u64,
    /// The provider never answered, or the classification ran out of time.
    pub timeout: u64,
    /// The model answered with something that is not a verdict.
    pub parse: u64,
    /// No key was configured for the call.
    pub missing_api_key: u64,
}

/// Observable result of an automatic classification pass.
#[derive(Clone, Copy, Debug, PartialEq, Eq, Structural)]
pub struct AutoClassifyOutcome {
    /// Events that gained a stream.
    pub assigned: u64,
    /// Answers recorded for human review instead of applied.
    pub proposed: u64,
    /// Queued answers that a later verdict answered past.
    pub superseded: u64,
    /// Candidates that a call was not spent on, this classifier having answered them.
    pub skipped_answered: u64,
    /// Candidates left untouched, having been answered or rejected before.
    pub skipped: u64,
    /// Classifier calls that failed.
    pub errors: u64,
    /// Candidates routed to the reserved junk stream.
    pub junked: u64,
    /// Answers refused because the stream name that they proposed describes no work.
    pub refused: u64,
    /// Answers refused because the stream that they named no longer exists.
    pub refused_missing_stream: u64,
    /// Candidates that the classifier answered about and declined to place.
    pub undetermined: u64,
    /// Candidates whose classification used every call allowed without an answer.
    pub turns_exhausted: u64,
    /// What the failed calls failed on.
    pub causes: ErrorCauses,
}

impl Default for ErrorCauses {
    fn default() -> (r: Self)
        ensures
            r == (ErrorCauses { api: 0, overloaded: 0, timeout: 0, parse: 0, missing_api_key: 0 }),
    {
        ErrorCauses { api: 0, overloaded: 0, timeout: 0, parse: 0, missing_api_key: 0 }
    }
}

impl Default for AutoClassifyOutcome {
    fn default() -> (r: Self)
        ensures
            r == AutoClassifyOutcome::none(),
    {
        AutoClassifyOutcome {
            assigned: 0,
            proposed: 0,
            superseded: 0,
            skipped_answered: 0,
            skipped: 0,
            errors: 0,
            junked: 0,
            refused: 0,
            refused_missing_stream: 0,
            undetermined: 0,
            turns_exhausted: 0,
            causes: ErrorCauses { api: 0, overloaded: 0, timeout: 0, parse: 0, missing_api_key: 0 },
        }
    }
}

impl AutoClassifyOutcome {
    /// The outcome of a pass that did nothing.
    pub open spec fn none() -> AutoClassifyOutcome {
        AutoClassifyOutcome {
            assigned: 0,
            proposed: 0,
            superseded: 0,
            skipped_answered: 0,
            skipped: 0,
            errors: 0,
            junked: 0,
            refused: 0,
            refused_missing_stream: 0,
            undetermined: 0,
            turns_exhausted: 0,
            causes: ErrorCauses { api: 0, overloaded: 0, timeout: 0, parse: 0, missing_api_key: 0 },
        }
    }
}

impl ErrorCauses {
    /// How many failures a cause was named by.
    pub open spec fn count(self, cause: FailureCause) -> u64 {
        match cause {
            FailureCause::Api => self.api,
            FailureCause::Overloaded => self.overloaded,
            FailureCause::Timeout => self.timeout,
            FailureCause::Parse => self.parse,
            FailureCause::MissingApiKey => self.missing_api_key,
        }
    }

    /// The failures of all causes.
    pub open spec fn total(self) -> int {
        self.api + self.overloaded + self.timeout + self.parse + self.missing_api_key
    }

    /// These failures and one more.
    pub open spec fn and(self, cause: FailureCause) -> ErrorCauses {
        match cause {
            FailureCause::Api => ErrorCauses { api: (self.api + 1) as u64, ..self },
            FailureCause::Overloaded => ErrorCauses {
                overloaded: (self.overloaded + 1) as u64,
                ..self
            },
            FailureCause::Timeout => ErrorCauses { timeout: (self.timeout + 1) as u64, ..self },
            FailureCause::Parse => ErrorCauses { parse: (self.parse + 1) as u64, ..self },
            FailureCause::MissingApiKey => ErrorCauses {
                missing_api_key: (self.missing_api_key + 1) as u64,
                ..self
            },
        }
    }

    /// Attributes one failure to its cause.
    pub fn record(&mut self, cause: FailureCause)
        requires
            old(self).count(cause) < u64::MAX,
        ensures
            *final(self) == old(self).and(cause),
            final(self).total() == old(self).total() + 1,
    {
        match cause {
            FailureCause::Api => {
                self.api = self.api + 1;
            },
            FailureCause::Overloaded => {
                self.overloaded = self.overloaded + 1;
            },
            FailureCause::Timeout => {
                self.timeout = self.timeout + 1;
            },
            FailureCause::Parse => {
                self.parse = self.parse + 1;
            },
            FailureCause::MissingApiKey => {
                self.missing_api_key = self.missing_api_key + 1;
            },
        }
    }

    /// The causes with their names, in the order in which they are reported.
    pub open spec fn named(self) -> Seq<(Seq<char>, u64)> {
        seq![
            ("api"@, self.api),
            ("overloaded"@, self.overloaded),
            ("timeout"@, self.timeout),
            ("parse"@, self.parse),
            ("missing_api_key"@, self.missing_api_key),
        ]
    }

    /// Names the causes that were hit, or nothing when none were.
    pub fn breakdown(&self) -> (r: String)
        ensures
            r@ == breakdown_text(*self),
    {
        let ghost named = self.named();
        let mut hit: Vec<String> = Vec::new();
        proof {
            assert(text::texts(hit@) =~= hits(named.take(0)));
        }
        push_hit(&mut hit, "api", self.api, Ghost(named.take(0)));
        proof {
            assert(named.take(0).push(("api"@, self.api)) =~= named.take(1));
        }
        push_hit(&mut hit, "overloaded", self.overloaded, Ghost(named.take(1)));
        proof {
            assert(named.take(1).push(("overloaded"@, self.overloaded)) =~= named.take(2));
        }
        push_hit(&mut hit, "timeout", self.timeout, Ghost(named.take(2)));
        proof {
            assert(named.take(2).push(("timeout"@, self.timeout)) =~= named.take(3));
        }
        push_hit(&mut hit, "parse", self.parse, Ghost(named.take(3)));
        proof {
            assert(named.take(3).push(("parse"@, self.parse)) =~= named.take(4));
        }
        push_hit(&mut hit, "missing_api_key", self.missing_api_key, Ghost(named.take(4)));
        proof {
            assert(named.take(4).push(("missing_api_key"@, self.missing_api_key)) =~= named);
            assert(text::texts(hit@).len() == hit@.len());
        }
        if hit.len() == 0 {
            proof {
                assert(breakdown_text(*self) =~= Seq::empty());
            }
            return String::new();
        }
        let mut out = " (".to_owned();
        out.append(text::join(&hit, ", ").as_str());
        out.append(")");
        out
    }
}

/// The causes that were hit, each with its count.
pub open spec fn hits(named: Seq<(Seq<char>, u64)>) -> Seq<Seq<char>>
    decreases named.len(),
{
    if named.len() == 0 {
        Seq::empty()
    } else {
        let rest = hits(named.drop_last());
        let (name, count) = named.last();
        if count > 0 {
            rest.push(name + "="@ + text::decimal(count as nat))
        } else {
            rest
        }
    }
}

/// The causes that were hit, in brackets; a cause at zero is left out.
pub open spec fn breakdown_text(causes: ErrorCauses) -> Seq<char> {
    if hits(causes.named()).len() == 0 {
        Seq::empty()
    } else {
        " ("@ + text::joined(hits(causes.named()), ", "@) + ")"@
    }
}

fn push_hit(hit: &mut Vec<String>, name: &str, count: u64, Ghost(named): Ghost<
    Seq<(Seq<char>, u64)>,
>)
    requires
        text::texts(old(hit)@) == hits(named),
    ensures
        text::texts(final(hit)@) == hits(named.push((name@, count))),
{
    let ghost before = text::texts(hit@);
    proof {
        assert(named.push((name@, count)).drop_last() =~= named);
    }
    if count > 0 {
        let mut part = name.to_owned();
        part.append("=");
        text::push_decimal(&mut part, count);
        hit.push(part);
        proof {
            assert(text::texts(hit@) =~= before.push(part@));
        }
    }
}

/// The line that reports a pass.
pub open spec fn summary_text(o: AutoClassifyOutcome) -> Seq<char> {
    "Auto-classify: assigned="@ + text::decimal(o.assigned as nat) + ", junked="@ + text::decimal(
        o.junked as nat,
    ) + ", proposed="@ + text::decimal(o.proposed as nat) + ", superseded="@ + text::decimal(
        o.superseded as nat,
    ) + ", refused="@ + text::decimal(o.refused as nat) + ", missing_stream="@ + text::decimal(
        o.refused_missing_stream as nat,
    ) + ", undetermined="@ + text::decimal(o.undetermined as nat) + ", turns_exhausted="@
        + text::decimal(o.turns_exhausted as nat) + ", skipped_answered="@ + text::decimal(
        o.skipped_answered as nat,
    ) + ", skipped="@ + text::decimal(o.skipped as nat) + ", errors="@ + text::decimal(
        o.errors as nat,
    ) + breakdown_text(o.causes)
}

/// Renders one pass's result as the line that an operator reads.
pub fn summary_line(outcome: &AutoClassifyOutcome) -> (r: String)
    ensures
        r@ == summary_text(*outcome),
{
    let mut out = "Auto-classify: assigned=".to_owned();
    text::push_decimal(&mut out, outcome.assigned);
    out.append(", junked=");
    text::push_decimal(&mut out, outcome.junked);
    out.append(", proposed=");
    text::push_decimal(&mut out, outcome.proposed);
    out.append(", superseded=");
    text::push_decimal(&mut out, outcome.superseded);
    out.append(", refused=");
    text::push_decimal(&mut out, outcome.refused);
    out.append(", missing_stream=");
    text::push_decimal(&mut out, outcome.refused_missing_stream);
    out.append(", undetermined=");
    text::push_decimal(&mut out, outcome.undetermined);
    out.append(", turns_exhausted=");
    text::push_decimal(&mut out, outcome.turns_exhausted);
    out.append(", skipped_answered=");
    text::push_decimal(&mut out, outcome.skipped_answered);
    out.append(", skipped=");
    text::push_decimal(&mut out, outcome.skipped);
    out.append(", errors=");
    text::push_decimal(&mut out, outcome.errors);
    out.append(outcome.causes.breakdown().as_str());
    out
}

/// A pass without failures carries no breakdown, and a pass with one carries it: the
/// breakdown is empty exactly where no cause was hit.
pub proof fn only_failures_are_broken_down(causes: ErrorCauses)
    ensures
        breakdown_text(causes).len() == 0 <==> causes.total() == 0,
{
    let named = causes.named();
    reveal_strlit(" (");
    assert(named.take(5) =~= named);
    assert(named.take(5).drop_last() =~= named.take(4));
    assert(named.take(4).drop_last() =~= named.take(3));
    assert(named.take(3).drop_last() =~= named.take(2));
    assert(named.take(2).drop_last() =~= named.take(1));
    assert(named.take(1).drop_last() =~= named.take(0));
    assert(hits(named.take(0)).len() == 0);
    assert(hits(named.take(1)).len() == if causes.api > 0 { 1nat } else { 0 });
    assert(hits(named.take(2)).len() == hits(named.take(1)).len() + if causes.overloaded > 0 {
        1nat
    } else {
        0
    });
    assert(hits(named.take(3)).len() == hits(named.take(2)).len() + if causes.timeout > 0 {
        1nat
    } else {
        0
    });
    assert(hits(named.take(4)).len() == hits(named.take(3)).len() + if causes.parse > 0 {
        1nat
    } else {
        0
    });
    assert(hits(named).len() == hits(named.take(4)).len() + if causes.missing_api_key > 0 {
        1nat
    } else {
        0
    });
}

/// The causes of two passes, from the first on, under the same names.
spec fn same_names(a: Seq<(Seq<char>, u64)>, b: Seq<(Seq<char>, u64)>) -> bool {
    &&& a.len() == b.len()
    &&& forall|i: int| 0 <= i < a.len() ==> (#[trigger] a[i]).0 == b[i].0
}

/// Whether no two names end alike, and none is empty.
spec fn end_apart(named: Seq<(Seq<char>, u64)>) -> bool {
    &&& forall|i: int| 0 <= i < named.len() ==> (#[trigger] named[i]).0.len() > 0
    &&& forall|i: int, j: int|
        0 <= i < j < named.len() ==> (#[trigger] named[i]).0.last() != (
        #[trigger] named[j]).0.last()
}

/// What comes before the last cause that was hit.
spec fn before_last(named: Seq<(Seq<char>, u64)>) -> Seq<char> {
    let earlier = hits(named.drop_last());
    if earlier.len() == 0 {
        Seq::empty()
    } else {
        text::joined(earlier, ", "@) + ", "@
    }
}

proof fn hits_end_with_the_last(named: Seq<(Seq<char>, u64)>)
    requires
        named.len() > 0,
        named.last().1 > 0,
    ensures
        hits(named).len() > 0,
        text::joined(hits(named), ", "@) == before_last(named) + named.last().0 + "="@
            + text::decimal(named.last().1 as nat),
{
    let earlier = hits(named.drop_last());
    let all = hits(named);
    let last = named.last().0 + "="@ + text::decimal(named.last().1 as nat);
    assert(all == earlier.push(last));
    assert(all.drop_last() =~= earlier);
    if earlier.len() == 0 {
        assert(text::joined(all, ", "@) == last);
        assert(before_last(named) + named.last().0 + "="@ + text::decimal(
            named.last().1 as nat,
        ) =~= last);
    } else {
        assert(text::joined(all, ", "@) =~= before_last(named) + named.last().0 + "="@
            + text::decimal(named.last().1 as nat));
    }
}

/// Which cause was hit last.
proof fn last_hit(named: Seq<(Seq<char>, u64)>) -> (i: int)
    requires
        hits(named).len() > 0,
    ensures
        0 <= i < named.len(),
        named[i].1 > 0,
        hits(named) == hits(named.take(i + 1)),
    decreases named.len(),
{
    if named.last().1 > 0 {
        assert(named.take(named.len() as int) =~= named);
        named.len() - 1
    } else {
        let i = last_hit(named.drop_last());
        assert(named.drop_last().take(i + 1) =~= named.take(i + 1));
        i
    }
}

proof fn hit_differs_from_none(a: Seq<(Seq<char>, u64)>, b: Seq<(Seq<char>, u64)>)
    requires
        same_names(a, b),
        end_apart(a),
        a.len() > 0,
        a.last().1 > 0,
        b.last().1 == 0,
    ensures
        text::joined(hits(a), ", "@) != text::joined(hits(b), ", "@),
{
    reveal_strlit("=");
    let last = a.len() - 1;
    hits_end_with_the_last(a);
    text::digits_read_back(a.last().1 as nat);
    if text::joined(hits(a), ", "@) == text::joined(hits(b), ", "@) {
        if hits(b).len() > 0 {
            let i = last_hit(b);
            let other = b.take(i + 1);
            assert(other.last() == b[i]);
            hits_end_with_the_last(other);
            let x = before_last(a) + a.last().0;
            let y = before_last(other) + b[i].0;
            assert(a[i].0 == b[i].0 && a[last].0.len() > 0 && a[i].0.len() > 0);
            text::final_numbers_are_told(
                x + "="@,
                a.last().1 as nat,
                y + "="@,
                b[i].1 as nat,
            );
            assert((x + "="@).drop_last() =~= x);
            assert((y + "="@).drop_last() =~= y);
            assert(x.last() == a[last].0.last());
            assert(y.last() == a[i].0.last());
            assert(i < last);
        }
    }
}

proof fn hits_tell_the_causes(a: Seq<(Seq<char>, u64)>, b: Seq<(Seq<char>, u64)>)
    requires
        same_names(a, b),
        end_apart(a),
        text::joined(hits(a), ", "@) == text::joined(hits(b), ", "@),
    ensures
        a == b,
    decreases a.len(),
{
    reveal_strlit("=");
    reveal_strlit(", ");
    if a.len() > 0 {
        let last = a.len() - 1;
        let (earlier, others) = (a.drop_last(), b.drop_last());
        assert(a[last].0 == b[last].0);
        assert(same_names(earlier, others)) by {
            assert forall|i: int| 0 <= i < earlier.len() implies (#[trigger] earlier[i]).0
                == others[i].0 by {
                assert(a[i].0 == b[i].0);
            }
        }
        assert(end_apart(earlier)) by {
            assert forall|i: int| 0 <= i < earlier.len() implies (
            #[trigger] earlier[i]).0.len() > 0 by {
                assert(a[i].0.len() > 0);
            }
            assert forall|i: int, j: int| 0 <= i < j < earlier.len() implies (
            #[trigger] earlier[i]).0.last() != (#[trigger] earlier[j]).0.last() by {
                assert(a[i].0.last() != a[j].0.last());
            }
        }
        assert(end_apart(b)) by {
            assert forall|i: int| 0 <= i < b.len() implies (#[trigger] b[i]).0.len() > 0 by {
                assert(a[i].0.len() > 0);
            }
            assert forall|i: int, j: int| 0 <= i < j < b.len() implies (
            #[trigger] b[i]).0.last() != (#[trigger] b[j]).0.last() by {
                assert(a[i].0.last() != a[j].0.last());
            }
        }
        if a.last().1 > 0 && b.last().1 > 0 {
            hits_end_with_the_last(a);
            hits_end_with_the_last(b);
            let x = before_last(a) + a.last().0;
            let y = before_last(b) + b.last().0;
            text::final_numbers_are_told(
                x + "="@,
                a.last().1 as nat,
                y + "="@,
                b.last().1 as nat,
            );
            assert((x + "="@).drop_last() =~= x);
            assert((y + "="@).drop_last() =~= y);
            assert(x.take(x.len() - a.last().0.len()) =~= before_last(a));
            assert(y.take(y.len() - b.last().0.len()) =~= before_last(b));
            let (j, k) = (text::joined(hits(earlier), ", "@), text::joined(hits(others), ", "@));
            if hits(earlier).len() > 0 && hits(others).len() > 0 {
                assert((j + ", "@).take(j.len() as int) =~= j);
                assert((k + ", "@).take(k.len() as int) =~= k);
            }
            hits_tell_the_causes(earlier, others);
        } else if a.last().1 > 0 {
            hit_differs_from_none(a, b);
        } else if b.last().1 > 0 {
            hit_differs_from_none(b, a);
        } else {
            hits_tell_the_causes(earlier, others);
        }
        assert(a =~= earlier.push(a.last()));
        assert(b =~= others.push(b.last()));
    } else {
        assert(a =~= b);
    }
}

proof fn breakdowns_tell_the_causes(a: ErrorCauses, b: ErrorCauses)
    requires
        breakdown_text(a) == breakdown_text(b),
    ensures
        a == b,
{
    reveal_strlit(" (");
    reveal_strlit(")");
    reveal_strlit("api");
    reveal_strlit("overloaded");
    reveal_strlit("timeout");
    reveal_strlit("parse");
    reveal_strlit("missing_api_key");
    let (j, k) = (text::joined(hits(a.named()), ", "@), text::joined(hits(b.named()), ", "@));
    let (x, y) = (" ("@ + j + ")"@, " ("@ + k + ")"@);
    assert(x.subrange(2, x.len() - 1) =~= j);
    assert(y.subrange(2, y.len() - 1) =~= k);
    hits_tell_the_causes(a.named(), b.named());
    assert(a.named()[0].1 == a.api && b.named()[0].1 == b.api);
    assert(a.named()[1].1 == a.overloaded && b.named()[1].1 == b.overloaded);
    assert(a.named()[2].1 == a.timeout && b.named()[2].1 == b.timeout);
    assert(a.named()[3].1 == a.parse && b.named()[3].1 == b.parse);
    assert(a.named()[4].1 == a.missing_api_key && b.named()[4].1 == b.missing_api_key);
}

/// The fields of a pass in the order in which its line tells them, each with what comes
/// before it there.
spec fn told_fields(o: AutoClassifyOutcome) -> Seq<(Seq<char>, u64)> {
    seq![
        ("Auto-classify: assigned="@, o.assigned),
        (", junked="@, o.junked),
        (", proposed="@, o.proposed),
        (", superseded="@, o.superseded),
        (", refused="@, o.refused),
        (", missing_stream="@, o.refused_missing_stream),
        (", undetermined="@, o.undetermined),
        (", turns_exhausted="@, o.turns_exhausted),
        (", skipped_answered="@, o.skipped_answered),
        (", skipped="@, o.skipped),
        (", errors="@, o.errors),
    ]
}

/// Numbers, each behind its label, and an end.
spec fn spelled(fields: Seq<(Seq<char>, u64)>, end: Seq<char>) -> Seq<char>
    decreases fields.len(),
{
    if fields.len() == 0 {
        end
    } else {
        spelled(
            fields.drop_last(),
            fields.last().0 + text::decimal(fields.last().1 as nat) + end,
        )
    }
}

/// Whether each label but the first starts with no digit.
spec fn labels_part(fields: Seq<(Seq<char>, u64)>) -> bool {
    forall|i: int|
        0 <= i < fields.len() ==> (#[trigger] fields[i]).0.len() > 0 && !text::is_digit(
            fields[i].0[0],
            10,
        )
}

proof fn spelled_from_the_first(fields: Seq<(Seq<char>, u64)>, end: Seq<char>)
    requires
        fields.len() > 0,
    ensures
        spelled(fields, end) == fields[0].0 + (text::decimal(fields[0].1 as nat) + spelled(
            fields.skip(1),
            end,
        )),
    decreases fields.len(),
{
    let last = fields.last().0 + text::decimal(fields.last().1 as nat) + end;
    if fields.len() == 1 {
        assert(fields.drop_last() =~= Seq::empty());
        assert(fields.skip(1) =~= Seq::empty());
        assert(spelled(fields.drop_last(), last) == last);
        assert(spelled(fields.skip(1), end) == end);
        assert(last =~= fields[0].0 + (text::decimal(fields[0].1 as nat) + end));
    } else {
        spelled_from_the_first(fields.drop_last(), last);
        assert(fields.drop_last().skip(1) =~= fields.skip(1).drop_last());
        assert(fields.skip(1).last() == fields.last());
    }
}

proof fn spellings_part(fields: Seq<(Seq<char>, u64)>, end: Seq<char>)
    requires
        labels_part(fields),
        text::starts_undigit(end),
    ensures
        text::starts_undigit(spelled(fields, end)),
{
    if fields.len() > 0 {
        spelled_from_the_first(fields, end);
        assert(fields[0].0.len() > 0);
    }
}

proof fn spellings_tell_the_fields(
    a: Seq<(Seq<char>, u64)>,
    x: Seq<char>,
    b: Seq<(Seq<char>, u64)>,
    y: Seq<char>,
)
    requires
        same_names(a, b),
        labels_part(a),
        text::starts_undigit(x),
        text::starts_undigit(y),
        spelled(a, x) == spelled(b, y),
    ensures
        a == b,
        x == y,
    decreases a.len(),
{
    if a.len() == 0 {
        assert(a =~= b);
    } else {
        let (rest, others) = (a.skip(1), b.skip(1));
        assert(same_names(rest, others)) by {
            assert forall|i: int| 0 <= i < rest.len() implies (#[trigger] rest[i]).0
                == others[i].0 by {
                assert(a[i + 1].0 == b[i + 1].0);
            }
        }
        assert(labels_part(rest)) by {
            assert forall|i: int| 0 <= i < rest.len() implies (#[trigger] rest[i]).0.len() > 0
                && !text::is_digit(rest[i].0[0], 10) by {
                assert(a[i + 1].0.len() > 0);
            }
        }
        assert(labels_part(others)) by {
            assert forall|i: int| 0 <= i < others.len() implies (#[trigger] others[i]).0.len() > 0
                && !text::is_digit(others[i].0[0], 10) by {
                assert(rest[i].0 == others[i].0);
            }
        }
        spelled_from_the_first(a, x);
        spelled_from_the_first(b, y);
        spellings_part(rest, x);
        spellings_part(others, y);
        assert(a[0].0 == b[0].0);
        let (p, q) = (
            text::decimal(a[0].1 as nat) + spelled(rest, x),
            text::decimal(b[0].1 as nat) + spelled(others, y),
        );
        assert((a[0].0 + p).skip(a[0].0.len() as int) =~= p);
        assert((b[0].0 + q).skip(b[0].0.len() as int) =~= q);
        text::leading_numbers_are_told(
            a[0].1 as nat,
            spelled(rest, x),
            b[0].1 as nat,
            spelled(others, y),
        );
        spellings_tell_the_fields(rest, x, others, y);
        assert(a =~= seq![a[0]] + rest);
        assert(b =~= seq![b[0]] + others);
    }
}

/// What a prefix of the fields adds to the line.
spec fn spelled_so_far(fields: Seq<(Seq<char>, u64)>) -> Seq<char>
    decreases fields.len(),
{
    if fields.len() == 0 {
        Seq::empty()
    } else {
        spelled_so_far(fields.drop_last()) + fields.last().0 + text::decimal(
            fields.last().1 as nat,
        )
    }
}

proof fn spelled_in_one(fields: Seq<(Seq<char>, u64)>, end: Seq<char>)
    ensures
        spelled(fields, end) == spelled_so_far(fields) + end,
    decreases fields.len(),
{
    if fields.len() == 0 {
        assert(spelled_so_far(fields) + end =~= end);
    } else {
        let last = fields.last().0 + text::decimal(fields.last().1 as nat) + end;
        spelled_in_one(fields.drop_last(), last);
        assert(spelled_so_far(fields) + end =~= spelled_so_far(fields.drop_last()) + last);
    }
}

proof fn spelled_grows(fields: Seq<(Seq<char>, u64)>, i: int)
    requires
        0 <= i < fields.len(),
    ensures
        spelled_so_far(fields.take(i + 1)) == spelled_so_far(fields.take(i)) + fields[i].0
            + text::decimal(fields[i].1 as nat),
{
    assert(fields.take(i + 1).drop_last() =~= fields.take(i));
}

proof fn lines_spell_the_fields(o: AutoClassifyOutcome)
    ensures
        summary_text(o) == spelled(told_fields(o), breakdown_text(o.causes)),
{
    let f = told_fields(o);
    assert(f.take(0) =~= Seq::empty());
    assert(spelled_so_far(f.take(0)) =~= Seq::empty());
    spelled_grows(f, 0);
    spelled_grows(f, 1);
    spelled_grows(f, 2);
    spelled_grows(f, 3);
    spelled_grows(f, 4);
    spelled_grows(f, 5);
    spelled_grows(f, 6);
    spelled_grows(f, 7);
    spelled_grows(f, 8);
    spelled_grows(f, 9);
    spelled_grows(f, 10);
    assert(spelled_so_far(f.take(1)) =~= f[0].0 + text::decimal(o.assigned as nat));
    assert(f.take(11) =~= f);
    spelled_in_one(f, breakdown_text(o.causes));
}

/// The line that reports a pass tells everything of it: every counter and every cause.
/// Two passes with the same line are the same.
pub proof fn lines_tell_passes_apart(a: AutoClassifyOutcome, b: AutoClassifyOutcome)
    ensures
        summary_text(a) == summary_text(b) <==> a == b,
{
    if summary_text(a) == summary_text(b) {
        lines_spell_the_fields(a);
        lines_spell_the_fields(b);
        reveal_strlit(" (");
        reveal_strlit("Auto-classify: assigned=");
        reveal_strlit(", junked=");
        reveal_strlit(", proposed=");
        reveal_strlit(", superseded=");
        reveal_strlit(", refused=");
        reveal_strlit(", missing_stream=");
        reveal_strlit(", undetermined=");
        reveal_strlit(", turns_exhausted=");
        reveal_strlit(", skipped_answered=");
        reveal_strlit(", skipped=");
        reveal_strlit(", errors=");
        let (f, g) = (told_fields(a), told_fields(b));
        spellings_tell_the_fields(f, breakdown_text(a.causes), g, breakdown_text(b.causes));
        breakdowns_tell_the_causes(a.causes, b.causes);
        assert(f[0].1 == a.assigned && g[0].1 == b.assigned);
        assert(f[1].1 == a.junked && g[1].1 == b.junked);
        assert(f[2].1 == a.proposed && g[2].1 == b.proposed);
        assert(f[3].1 == a.superseded && g[3].1 == b.superseded);
        assert(f[4].1 == a.refused && g[4].1 == b.refused);
        assert(f[5].1 == a.refused_missing_stream && g[5].1 == b.refused_missing_stream);
        assert(f[6].1 == a.undetermined && g[6].1 == b.undetermined);
        assert(f[7].1 == a.turns_exhausted && g[7].1 == b.turns_exhausted);
        assert(f[8].1 == a.skipped_answered && g[8].1 == b.skipped_answered);
        assert(f[9].1 == a.skipped && g[9].1 == b.skipped);
        assert(f[10].1 == a.errors && g[10].1 == b.errors);
    }
}

impl AutoClassifyOutcome {
    /// Counts one failed call, in the total and against its cause.
    pub fn record_failure(&mut self, cause: FailureCause)
        requires
            old(self).errors < u64::MAX,
            old(self).causes.count(cause) < u64::MAX,
        ensures
            *final(self) == (AutoClassifyOutcome {
                errors: (old(self).errors + 1) as u64,
                causes: old(self).causes.and(cause),
                ..*old(self)
            }),
            final(self).errors - old(self).errors == final(self).causes.total() - old(
                self,
            ).causes.total(),
    {
        self.errors = self.errors + 1;
        let mut causes = self.causes;
        causes.record(cause);
        self.causes = causes;
    }
}

/// The reason for which a worker failed: a call that no retry could change, and what
/// the worker's panic said.
pub fn panicked(reason: Option<&str>) -> (r: (FailureCause, String))
    ensures
        r.0 == FailureCause::Api,
        r.1@ == "classifier worker panicked: "@ + (match reason {
            Some(reason) => reason@,
            None => "no message"@,
        }),
{
    let mut message = "classifier worker panicked: ".to_owned();
    match reason {
        Some(reason) => {
            message.append(reason);
        },
        None => {
            message.append("no message");
        },
    }
    (FailureCause::Api, message)
}

impl AutoClassifyOutcome {
    /// Counts sessions that were routed to the junk stream, with their events.
    pub fn record_junk(&mut self, sessions: u64, events: u64)
        requires
            old(self).junked + sessions <= u64::MAX,
            old(self).assigned + events <= u64::MAX,
        ensures
            *final(self) == (AutoClassifyOutcome {
                junked: (old(self).junked + sessions) as u64,
                assigned: (old(self).assigned + events) as u64,
                ..*old(self)
            }),
    {
        self.junked = self.junked + sessions;
        self.assigned = self.assigned + events;
    }

    /// Counts events that dependent sessions gained with their parent's stream.
    pub fn record_inherited(&mut self, events: u64)
        requires
            old(self).assigned + events <= u64::MAX,
        ensures
            *final(self) == (AutoClassifyOutcome {
                assigned: (old(self).assigned + events) as u64,
                ..*old(self)
            }),
    {
        self.assigned = self.assigned + events;
    }

    /// Counts a candidate that this classifier has answered already.
    pub fn record_answered(&mut self)
        requires
            old(self).skipped_answered < u64::MAX,
        ensures
            *final(self) == (AutoClassifyOutcome {
                skipped_answered: (old(self).skipped_answered + 1) as u64,
                ..*old(self)
            }),
    {
        self.skipped_answered = self.skipped_answered + 1;
    }
}

/// What the model is asked about.
#[derive(Debug)]
pub struct ClassificationInput {
    /// Whether `session_id` is a session, which the model can ask more about.
    pub has_session: bool,
    pub session_id: String,
    pub machine: Option<String>,
    pub cwd: Option<String>,
    pub starting_prompt: Option<String>,
    pub user_prompts: Vec<String>,
    pub window_titles: Vec<String>,
    /// When the work happened, where that is known.
    pub started_at: Option<Timestamp>,
}

impl ClassificationInput {
    /// Whether this asks about a session on a machine.
    pub open spec fn asks_about(self, s: AgentSession, machine: Option<String>) -> bool {
        &&& self.has_session
        &&& self.session_id == s.session_id
        &&& self.machine == machine
        &&& self.cwd == Some(s.project_path)
        &&& self.starting_prompt == s.starting_prompt
        &&& self.user_prompts == s.user_prompts
        &&& self.window_titles@.len() == 0
        &&& self.started_at == Some(s.start_time)
    }

    /// Whether this asks about a window run.
    pub open spec fn asks_about_run(self, run: WindowRun) -> bool {
        &&& !self.has_session
        &&& run.event_ids@.len() > 0 && self.session_id@ == "window:"@ + run.event_ids@[0]@
        &&& self.machine == run.machine_id
        &&& self.cwd is None
        &&& self.starting_prompt is None
        &&& self.user_prompts@.len() == 0
        &&& self.window_titles == run.titles
        &&& match window_runs::started(run) {
            Some(at) => self.started_at matches Some(t) && t@ == at,
            None => self.started_at is None,
        }
    }
}

fn session_input(s: AgentSession, machine: Option<String>) -> (r: ClassificationInput)
    ensures
        r.asks_about(s, machine),
{
    ClassificationInput {
        has_session: true,
        session_id: s.session_id,
        machine,
        cwd: Some(s.project_path),
        starting_prompt: s.starting_prompt,
        user_prompts: s.user_prompts,
        window_titles: Vec::new(),
        started_at: Some(s.start_time),
    }
}

/// A session that a pass looks at.
#[derive(Debug)]
pub struct SessionCandidate {
    pub session: AgentSession,
    pub machine: Option<String>,
    /// Whether its structure alone says that it carries no work.
    pub structurally_junk: bool,
}

/// What a pass does with a session that it looks at.
#[derive(Debug)]
pub enum SessionStep {
    /// It is routed to the junk stream without a call.
    Junk { session_id: String, prompt_count: u32 },
    /// The model is asked.
    Ask { input: ClassificationInput, prompt_count: u32 },
}

impl SessionStep {
    /// Whether this is what is done with a candidate.
    pub open spec fn settles(self, c: SessionCandidate) -> bool {
        match self {
            SessionStep::Junk { session_id, prompt_count } => c.structurally_junk && session_id
                == c.session.session_id && prompt_count == c.session.user_prompts@.len(),
            SessionStep::Ask { input, prompt_count } => !c.structurally_junk && input.asks_about(
                c.session,
                c.machine,
            ) && prompt_count == c.session.user_prompts@.len(),
        }
    }
}

/// Whether the prompts of a session are more than can be counted.
pub open spec fn too_many_prompts(s: AgentSession) -> bool {
    s.user_prompts@.len() > u32::MAX
}

/// What a pass does with the sessions that it looks at, in order.
#[derive(Debug)]
pub struct SessionPlan {
    pub steps: Vec<SessionStep>,
    /// Whether the session behind those has more prompts than can be counted,
    /// which ends the pass.
    pub failed: bool,
}

/// Plans what a pass does with the sessions that it looks at: junk is settled
/// without a call, and the model is asked about the others.
pub fn plan_sessions(candidates: Vec<SessionCandidate>) -> (r: SessionPlan)
    ensures
        r.steps@.len() <= candidates@.len(),
        forall|i: int|
            0 <= i < r.steps@.len() ==> (#[trigger] r.steps@[i]).settles(candidates@[i])
                && !too_many_prompts(candidates@[i].session),
        r.failed ==> r.steps@.len() < candidates@.len() && too_many_prompts(
            candidates@[r.steps@.len() as int].session,
        ),
        !r.failed ==> r.steps@.len() == candidates@.len(),
{
    let ghost all = candidates@;
    let mut steps: Vec<SessionStep> = Vec::new();
    for candidate in it: candidates
        invariant
            it.seq() == all,
            steps@.len() == it.index(),
            forall|i: int| 0 <= i < steps@.len() ==> (#[trigger] steps@[i]).settles(all[i]),
            forall|i: int| 0 <= i < steps@.len() ==> !too_many_prompts((#[trigger] all[i]).session),
    {
        let ghost n = it.index();
        let SessionCandidate { session, machine, structurally_junk } = candidate;
        let count: usize = session.user_prompts.len();
        if count as u64 > u32::MAX as u64 {
            return SessionPlan { steps, failed: true };
        }
        let prompt_count: u32 = count as u32;
        let step: SessionStep = if structurally_junk {
            SessionStep::Junk { session_id: session.session_id, prompt_count }
        } else {
            SessionStep::Ask { input: session_input(session, machine), prompt_count }
        };
        proof {
            assert(step.settles(all[n]));
            assert(!too_many_prompts(all[n].session));
        }
        steps.push(step);
    }
    SessionPlan { steps, failed: false }
}

/// The window runs that a pass looks at: the newest, as many as a pass may.
pub open spec fn runs_in_pass(runs: Seq<WindowRun>) -> Seq<WindowRun> {
    let sorted = order::stably_sorted(runs, window_runs::recency_keys(runs));
    if sorted.len() > WINDOW_RUNS_PER_PASS {
        sorted.take(WINDOW_RUNS_PER_PASS as int)
    } else {
        sorted
    }
}

/// Selects the window runs that a pass looks at.
pub fn runs_for_pass(runs: Vec<WindowRun>) -> (r: Vec<WindowRun>)
    ensures
        r@ == runs_in_pass(runs@),
        r@.len() <= WINDOW_RUNS_PER_PASS,
{
    let mut sorted = newest_first(runs);
    if sorted.len() > WINDOW_RUNS_PER_PASS {
        sorted.truncate(WINDOW_RUNS_PER_PASS);
    }
    sorted
}

/// What the model is asked about a window run, and the events that its answer is
/// about; `None` for a run without events.
pub fn run_question(run: WindowRun) -> (r: Option<(ClassificationInput, Vec<String>)>)
    ensures
        match r {
            Some(question) => question.0.asks_about_run(run) && question.1 == run.event_ids,
            None => run.event_ids@.len() == 0,
        },
{
    if run.event_ids.len() == 0 {
        return None;
    }
    let started_at = Timestamp::parse(run.start.as_str());
    let mut session_id = "window:".to_owned();
    session_id.append(run.event_ids[0].as_str());
    let input = ClassificationInput {
        has_session: false,
        session_id,
        machine: run.machine_id,
        cwd: None,
        starting_prompt: None,
        user_prompts: Vec::new(),
        window_titles: run.titles,
        started_at,
    };
    Some((input, run.event_ids))
}

/// What becomes of a session that is due for another look.
#[derive(Debug)]
pub enum RecheckStep {
    /// It is gone: it is marked as looked at.
    Gone,
    /// It has gained no prompts: it stays due.
    Wait,
    /// The model is asked again, and the session is marked as looked at.
    Ask { input: ClassificationInput, prompt_count: u32 },
    /// It has more prompts than can be counted, which ends the pass.
    TooManyPrompts,
}

/// Decides what becomes of a session that was classified with `prompt_count`
/// prompts: it is looked at again only where it has gained prompts since.
pub fn recheck_step(found: Option<(AgentSession, Option<String>)>, prompt_count: u32) -> (r:
    RecheckStep)
    ensures
        match found {
            None => r is Gone,
            Some(found) => if too_many_prompts(found.0) {
                r is TooManyPrompts
            } else if found.0.user_prompts@.len() <= prompt_count {
                r is Wait
            } else {
                r matches RecheckStep::Ask { input, prompt_count: now } && input.asks_about(
                    found.0,
                    found.1,
                ) && now == found.0.user_prompts@.len()
            },
        },
{
    match found {
        None => RecheckStep::Gone,
        Some((session, machine)) => {
            let count: usize = session.user_prompts.len();
            if count as u64 > u32::MAX as u64 {
                return RecheckStep::TooManyPrompts;
            }
            if count as u32 <= prompt_count {
                return RecheckStep::Wait;
            }
            RecheckStep::Ask {
                input: session_input(session, machine),
                prompt_count: count as u32,
            }
        },
    }
}

/// Whether a line gives a number behind a label.
pub open spec fn is_told(line: Seq<char>, label: Seq<char>, n: u64) -> bool {
    exists|before: Seq<char>, after: Seq<char>|
        text::starts_undigit(after) && line == #[trigger] (before + label + text::decimal(n as nat)
            + after)
}

proof fn fields_are_told(fields: Seq<(Seq<char>, u64)>, end: Seq<char>, i: int)
    requires
        labels_part(fields),
        text::starts_undigit(end),
        0 <= i < fields.len(),
    ensures
        is_told(spelled(fields, end), fields[i].0, fields[i].1),
{
    let rest = fields.skip(i + 1);
    assert(labels_part(rest)) by {
        assert forall|k: int| 0 <= k < rest.len() implies (#[trigger] rest[k]).0.len() > 0
            && !text::is_digit(rest[k].0[0], 10) by {
            assert(fields[k + i + 1].0.len() > 0);
        }
    }
    spellings_part(rest, end);
    let before = spelled_so_far(fields.take(i));
    let after = spelled(rest, end);
    spelled_at(fields, end, i);
    assert(spelled(fields, end) == before + fields[i].0 + text::decimal(fields[i].1 as nat)
        + after);
}

proof fn spelled_at(fields: Seq<(Seq<char>, u64)>, end: Seq<char>, i: int)
    requires
        0 <= i < fields.len(),
    ensures
        spelled(fields, end) == spelled_so_far(fields.take(i)) + fields[i].0 + text::decimal(
            fields[i].1 as nat,
        ) + spelled(fields.skip(i + 1), end),
    decreases fields.len(),
{
    let last = fields.last().0 + text::decimal(fields.last().1 as nat) + end;
    let earlier = fields.drop_last();
    if i == fields.len() - 1 {
        assert(fields.take(i) =~= earlier);
        assert(fields.skip(i + 1) =~= Seq::empty());
        spelled_in_one(earlier, last);
        assert(spelled(fields.skip(i + 1), end) == end);
        assert(spelled_so_far(earlier) + last =~= spelled_so_far(earlier) + fields[i].0
            + text::decimal(fields[i].1 as nat) + end);
    } else {
        spelled_at(earlier, last, i);
        assert(earlier.take(i) =~= fields.take(i));
        assert(earlier.skip(i + 1) =~= fields.skip(i + 1).drop_last());
        assert(fields.skip(i + 1).last() == fields.last());
    }
}

/// The line that reports a pass gives each counter behind its own label.
pub proof fn counters_are_told_under_their_labels(o: AutoClassifyOutcome)
    ensures
        is_told(summary_text(o), "Auto-classify: assigned="@, o.assigned),
        is_told(summary_text(o), ", junked="@, o.junked),
        is_told(summary_text(o), ", proposed="@, o.proposed),
        is_told(summary_text(o), ", superseded="@, o.superseded),
        is_told(summary_text(o), ", refused="@, o.refused),
        is_told(summary_text(o), ", missing_stream="@, o.refused_missing_stream),
        is_told(summary_text(o), ", undetermined="@, o.undetermined),
        is_told(summary_text(o), ", turns_exhausted="@, o.turns_exhausted),
        is_told(summary_text(o), ", skipped_answered="@, o.skipped_answered),
        is_told(summary_text(o), ", skipped="@, o.skipped),
        is_told(summary_text(o), ", errors="@, o.errors),
{
    reveal_strlit(" (");
    reveal_strlit("Auto-classify: assigned=");
    reveal_strlit(", junked=");
    reveal_strlit(", proposed=");
    reveal_strlit(", superseded=");
    reveal_strlit(", refused=");
    reveal_strlit(", missing_stream=");
    reveal_strlit(", undetermined=");
    reveal_strlit(", turns_exhausted=");
    reveal_strlit(", skipped_answered=");
    reveal_strlit(", skipped=");
    reveal_strlit(", errors=");
    lines_spell_the_fields(o);
    let f = told_fields(o);
    let end = breakdown_text(o.causes);
    assert(text::starts_undigit(end));
    assert(labels_part(f));
    fields_are_told(f, end, 0);
    fields_are_told(f, end, 1);
    fields_are_told(f, end, 2);
    fields_are_told(f, end, 3);
    fields_are_told(f, end, 4);
    fields_are_told(f, end, 5);
    fields_are_told(f, end, 6);
    fields_are_told(f, end, 7);
    fields_are_told(f, end, 8);
    fields_are_told(f, end, 9);
    fields_are_told(f, end, 10);
}

/// A failure counts against its own cause, and against no other.
pub proof fn failures_count_against_their_cause(causes: ErrorCauses, cause: FailureCause)
    requires
        causes.count(cause) < u64::MAX,
    ensures
        ({
            let after = causes.and(cause);
            &&& after.api == causes.api + (if cause is Api {
                1int
            } else {
                0
            })
            &&& after.overloaded == causes.overloaded + (if cause is Overloaded {
                1int
            } else {
                0
            })
            &&& after.timeout == causes.timeout + (if cause is Timeout {
                1int
            } else {
                0
            })
            &&& after.parse == causes.parse + (if cause is Parse {
                1int
            } else {
                0
            })
            &&& after.missing_api_key == causes.missing_api_key + (if cause is MissingApiKey {
                1int
            } else {
                0
            })
        }),
{
}

/// A cause that was hit is named with its count, and one that was not is left out. The
/// causes come in the order in which they are given.
pub proof fn causes_are_named_with_their_counts(
    named: Seq<(Seq<char>, u64)>,
    name: Seq<char>,
    count: u64,
)
    ensures
        count > 0 ==> hits(named.push((name, count))) == hits(named).push(
            name + "="@ + text::decimal(count as nat),
        ),
        count == 0 ==> hits(named.push((name, count))) == hits(named),
        hits(Seq::empty()).len() == 0,
{
    assert(named.push((name, count)).drop_last() =~= named);
}

/// The names under which the causes are reported are their own.
pub proof fn causes_have_their_names(causes: ErrorCauses, i: int)
    requires
        0 <= i < causes.named().len(),
    ensures
        causes.named()[i].0 == "api"@ ==> causes.named()[i].1 == causes.count(FailureCause::Api),
        causes.named()[i].0 == "overloaded"@ ==> causes.named()[i].1 == causes.count(
            FailureCause::Overloaded,
        ),
        causes.named()[i].0 == "timeout"@ ==> causes.named()[i].1 == causes.count(
            FailureCause::Timeout,
        ),
        causes.named()[i].0 == "parse"@ ==> causes.named()[i].1 == causes.count(
            FailureCause::Parse,
        ),
        causes.named()[i].0 == "missing_api_key"@ ==> causes.named()[i].1 == causes.count(
            FailureCause::MissingApiKey,
        ),
        causes.count(FailureCause::Api) == causes.api,
        causes.count(FailureCause::Overloaded) == causes.overloaded,
        causes.count(FailureCause::Timeout) == causes.timeout,
        causes.count(FailureCause::Parse) == causes.parse,
        causes.count(FailureCause::MissingApiKey) == causes.missing_api_key,
{
    reveal_strlit("api");
    reveal_strlit("overloaded");
    reveal_strlit("timeout");
    reveal_strlit("parse");
    reveal_strlit("missing_api_key");
    assert("api"@.len() == 3 && "overloaded"@.len() == 10 && "timeout"@.len() == 7);
    assert("parse"@.len() == 5 && "missing_api_key"@.len() == 15);
}

/// What the model is asked about a session is the session's own: its id, its directory,
/// its prompts and its start, and the machine that it ran on.
pub proof fn sessions_are_asked_about_as_they_are(
    input: ClassificationInput,
    s: AgentSession,
    machine: Option<String>,
)
    requires
        input.asks_about(s, machine),
    ensures
        input.has_session,
        input.session_id@ == s.session_id@,
        text::opt_text(input.machine) == text::opt_text(machine),
        text::opt_text(input.cwd) == Some(s.project_path@),
        text::opt_text(input.starting_prompt) == text::opt_text(s.starting_prompt),
        text::texts(input.user_prompts@) == text::texts(s.user_prompts@),
        input.window_titles@.len() == 0,
        time::opt_instant(input.started_at) == Some(s.start_time@),
{
}

/// What the model is asked about a window run is the run's own: it is named by its first
/// event, and told by its titles, its machine and its start.
pub proof fn runs_are_asked_about_as_they_are(input: ClassificationInput, run: WindowRun)
    requires
        input.asks_about_run(run),
    ensures
        !input.has_session,
        run.event_ids@.len() > 0,
        input.session_id@.skip(7) == run.event_ids@[0]@,
        input.session_id@.take(7) == "window:"@,
        text::opt_text(input.machine) == text::opt_text(run.machine_id),
        input.cwd is None && input.starting_prompt is None && input.user_prompts@.len() == 0,
        text::texts(input.window_titles@) == text::texts(run.titles@),
        time::rfc3339_instant(run.start@) is None ==> input.started_at is None,
        time::rfc3339_instant(run.start@) matches Some(parts) ==> time::opt_instant(
            input.started_at,
        ) == Some((time::Instant { secs: parts.0 as int, nanos: parts.1 as int })),
{
    reveal_strlit("window:");
    assert(input.session_id@.skip(7) =~= run.event_ids@[0]@);
    assert(input.session_id@.take(7) =~= "window:"@);
}

/// A candidate is routed to junk exactly where its structure says that it carries no
/// work, and asked about otherwise; either way its prompts are counted.
pub proof fn only_structural_junk_is_not_asked_about(step: SessionStep, c: SessionCandidate)
    requires
        step.settles(c),
    ensures
        step is Junk <==> c.structurally_junk,
        step matches SessionStep::Junk { session_id, prompt_count } ==> session_id@
            == c.session.session_id@ && prompt_count == c.session.user_prompts@.len(),
        step matches SessionStep::Ask { input, prompt_count } ==> input.session_id@
            == c.session.session_id@ && text::opt_text(input.machine) == text::opt_text(c.machine)
            && prompt_count == c.session.user_prompts@.len(),
{
}

/// A pass looks at no more window runs than it may, and at the newest: each is one of the
/// runs, and no run that it leaves out started after one that it looks at.
pub proof fn a_pass_looks_at_the_newest_runs(runs: Seq<WindowRun>, i: int, j: int)
    ensures
        ({
            let sorted = order::stably_sorted(runs, window_runs::recency_keys(runs));
            let seen = runs_in_pass(runs);
            &&& seen.len() == (if runs.len() <= 101 {
                runs.len() as int
            } else {
                101
            })
            &&& sorted.to_multiset() == runs.to_multiset()
            &&& 0 <= i < seen.len() ==> seen[i] == sorted[i]
            &&& 0 <= i < seen.len() <= j < runs.len() && window_runs::started(sorted[j]) is Some
                ==> window_runs::started(seen[i]) is Some && window_runs::started(
                sorted[j],
            )->0.at_most(window_runs::started(seen[i])->0)
        }),
{
    let keys = window_runs::recency_keys(runs);
    order::stable_positions_sort(keys);
    order::stable_sorts_rearrange(runs, keys);
    if 0 <= i < j < runs.len() {
        window_runs::newest_first_orders(runs, i, j);
    }
}

/// A pass that did nothing has counted nothing.
pub proof fn nothing_is_counted_at_first()
    ensures
        ({
            let o = AutoClassifyOutcome::none();
            &&& o.assigned == 0 && o.proposed == 0 && o.superseded == 0 && o.skipped_answered == 0
            &&& o.skipped == 0 && o.errors == 0 && o.junked == 0 && o.refused == 0
            &&& o.refused_missing_stream == 0 && o.undetermined == 0 && o.turns_exhausted == 0
            &&& o.causes.total() == 0
        }),
{
}

/// The prompts of a session can be counted up to the largest number of 32 bits.
pub proof fn prompts_are_counted_in_32_bits(s: AgentSession)
    ensures
        too_many_prompts(s) <==> s.user_prompts@.len() > 0xffff_ffff,
{
}

} // verus!

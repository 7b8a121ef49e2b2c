use vstd::prelude::*;

use crate::bytes::copy_bytes;
use crate::headers::{copy_headers, headers_view};
use crate::heuristic::{is_final, is_final_spec};
use crate::mode::{candidates_spec, resolve, ProxyMode, Upstream};

verus! {

/// What an upstream answered: its status code, its headers (name and
/// value, in order) and its body.
pub struct Outcome {
    pub status: u16,
    pub headers: Vec<(Vec<u8>, Vec<u8>)>,
    pub body: Vec<u8>,
}

/// The mathematical form of an outcome: status, headers and body.
pub type OutcomeModel = (u16, Seq<(Seq<u8>, Seq<u8>)>, Seq<u8>);

impl View for Outcome {
    type V = OutcomeModel;

    open spec fn view(&self) -> OutcomeModel {
        (self.status, headers_view(self.headers@), self.body@)
    }
}

impl Outcome {
    /// An independent copy of this outcome.
    pub fn duplicate(&self) -> (r: Outcome)
        ensures
            r@ == self@,
    {
        Outcome {
            status: self.status,
            headers: copy_headers(&self.headers),
            body: copy_bytes(self.body.as_slice()),
        }
    }
}

/// What came of asking one candidate.
pub enum Attempt {
    /// The candidate answered.
    Answered(Outcome),
    /// The candidate could not be reached in time (refused, timed out, or
    /// its name did not resolve).
    Unreachable,
}

impl View for Attempt {
    type V = Option<OutcomeModel>;

    open spec fn view(&self) -> Option<OutcomeModel> {
        match self {
            Attempt::Answered(o) => Some(o@),
            Attempt::Unreachable => None,
        }
    }
}

/// Whether candidates after an answer that is not final are still tried.
#[derive(Clone, Copy, Debug, PartialEq, Eq, Structural)]
pub enum FallbackPolicy {
    /// The first answer is replied, final or not.
    FirstAnswer,
    /// Candidates are tried in order until one gives a final answer.
    UntilFinal,
}

/// What the engine asks for next.
pub enum Step {
    /// Forward the request to this candidate and report what came of it.
    Fetch(Upstream),
    /// Answer the client with this outcome.
    Reply(Outcome),
    /// Answer the client with an empty response: no candidate answered.
    ReplyEmpty,
}

/// The mathematical form of a `Step`.
pub enum StepModel {
    Fetch(Upstream),
    Reply(OutcomeModel),
    ReplyEmpty,
}

impl View for Step {
    type V = StepModel;

    open spec fn view(&self) -> StepModel {
        match self {
            Step::Fetch(u) => StepModel::Fetch(*u),
            Step::Reply(o) => StepModel::Reply(o@),
            Step::ReplyEmpty => StepModel::ReplyEmpty,
        }
    }
}

/// The mathematical form of a forwarding in progress.
pub struct ForwardingModel {
    pub candidates: Seq<Upstream>,
    pub policy: FallbackPolicy,
    /// How many candidates have been asked.
    pub tried: nat,
    /// The first answer received, if any.
    pub first: Option<OutcomeModel>,
    /// The answer chosen for the client, once one is.
    pub chosen: Option<OutcomeModel>,
}

/// A forwarding that has asked no candidate yet.
pub open spec fn fresh(candidates: Seq<Upstream>, policy: FallbackPolicy) -> ForwardingModel {
    ForwardingModel { candidates, policy, tried: 0, first: None, chosen: None }
}

/// No more candidates are asked: one answer was chosen, or all were tried.
pub open spec fn is_settled(m: ForwardingModel) -> bool {
    m.chosen is Some || m.tried >= m.candidates.len()
}

/// Whether an attempt's answer ends the forwarding under `policy`.
pub open spec fn accepts(policy: FallbackPolicy, a: Option<OutcomeModel>) -> bool {
    match a {
        Some(o) => policy == FallbackPolicy::FirstAnswer || is_final_spec(o.0, o.2),
        None => false,
    }
}

/// The attempt brought an answer that is final.
pub open spec fn answered_final(a: Option<OutcomeModel>) -> bool {
    match a {
        Some(o) => is_final_spec(o.0, o.2),
        None => false,
    }
}

/// The forwarding after the current candidate's attempt is reported; a
/// settled forwarding ignores further reports.
pub open spec fn record_spec(m: ForwardingModel, a: Option<OutcomeModel>) -> ForwardingModel {
    if is_settled(m) {
        m
    } else {
        ForwardingModel {
            tried: m.tried + 1,
            first: if m.first is None {
                a
            } else {
                m.first
            },
            chosen: if accepts(m.policy, a) {
                a
            } else {
                None
            },
            ..m
        }
    }
}

/// What the forwarding asks for next: the chosen answer once there is one;
/// else the next candidate in order; else the first answer received; else
/// an empty response.
pub open spec fn next_spec(m: ForwardingModel) -> StepModel {
    match m.chosen {
        Some(o) => StepModel::Reply(o),
        None => if m.tried < m.candidates.len() {
            StepModel::Fetch(m.candidates[m.tried as int])
        } else {
            match m.first {
                Some(o) => StepModel::Reply(o),
                None => StepModel::ReplyEmpty,
            }
        },
    }
}

/// The forwarding after each attempt of `attempts` is reported in turn.
pub open spec fn run_spec(m: ForwardingModel, attempts: Seq<Option<OutcomeModel>>) -> ForwardingModel
    decreases attempts.len(),
{
    if attempts.len() == 0 {
        m
    } else {
        run_spec(record_spec(m, attempts[0]), attempts.drop_first())
    }
}

/// One inbound request on its way through the upstream candidates, which
/// are tried strictly in order.
pub struct Forwarding {
    candidates: Vec<Upstream>,
    policy: FallbackPolicy,
    tried: usize,
    first: Option<Outcome>,
    chosen: Option<Outcome>,
}

/// The mathematical form of an optional outcome.
pub open spec fn outcome_view(o: Option<Outcome>) -> Option<OutcomeModel> {
    match o {
        Some(x) => Some(x@),
        None => None,
    }
}

impl View for Forwarding {
    type V = ForwardingModel;

    closed spec fn view(&self) -> ForwardingModel {
        ForwardingModel {
            candidates: self.candidates@,
            policy: self.policy,
            tried: self.tried as nat,
            first: outcome_view(self.first),
            chosen: outcome_view(self.chosen),
        }
    }
}

fn duplicate_opt(o: &Option<Outcome>) -> (r: Option<Outcome>)
    ensures
        outcome_view(r) == outcome_view(*o),
{
    match o {
        Some(x) => Some(x.duplicate()),
        None => None,
    }
}

impl Forwarding {
    /// Well-formed: no more candidates tried than there are.
    pub open spec fn wf(&self) -> bool {
        self@.tried <= self@.candidates.len()
    }

    /// A forwarding over the candidates of `mode`, none asked yet.
    pub fn new(mode: ProxyMode, policy: FallbackPolicy) -> (r: Forwarding)
        ensures
            r.wf(),
            r@ == fresh(candidates_spec(mode), policy),
    {
        Forwarding { candidates: resolve(mode), policy, tried: 0, first: None, chosen: None }
    }

    /// What is to be done next.
    pub fn next_step(&self) -> (r: Step)
        requires
            self.wf(),
        ensures
            r@ == next_spec(self@),
    {
        match &self.chosen {
            Some(o) => Step::Reply(o.duplicate()),
            None => {
                if self.tried < self.candidates.len() {
                    Step::Fetch(self.candidates[self.tried])
                } else {
                    match &self.first {
                        Some(o) => Step::Reply(o.duplicate()),
                        None => Step::ReplyEmpty,
                    }
                }
            },
        }
    }

    /// Reports what came of asking the current candidate.
    pub fn record(&mut self, attempt: Attempt)
        requires
            old(self).wf(),
        ensures
            final(self).wf(),
            final(self)@ == record_spec(old(self)@, attempt@),
    {
        if self.chosen.is_some() || self.tried >= self.candidates.len() {
            return;
        }
        self.tried = self.tried + 1;
        match attempt {
            Attempt::Answered(o) => {
                let accepted = match self.policy {
                    FallbackPolicy::FirstAnswer => true,
                    FallbackPolicy::UntilFinal => is_final(o.status, o.body.as_slice()),
                };
                if self.first.is_none() {
                    self.first = Some(o.duplicate());
                }
                if accepted {
                    self.chosen = Some(o);
                }
            },
            Attempt::Unreachable => {},
        }
    }
}

/// Reports of attempts that none accepts leave the forwarding unchosen and
/// all its candidates tried, with the first answer unchanged when one was
/// already there or none came.
proof fn lemma_run_unaccepted(m: ForwardingModel, attempts: Seq<Option<OutcomeModel>>)
    requires
        m.chosen is None,
        m.tried + attempts.len() == m.candidates.len(),
        forall|i: int| 0 <= i < attempts.len() ==> !accepts(m.policy, #[trigger] attempts[i]),
        m.first is Some || forall|i: int| 0 <= i < attempts.len() ==> #[trigger] attempts[i] is None,
    ensures
        run_spec(m, attempts).chosen is None,
        run_spec(m, attempts).tried == m.candidates.len(),
        run_spec(m, attempts).first == m.first,
        run_spec(m, attempts).candidates == m.candidates,
    decreases attempts.len(),
{
    if attempts.len() > 0 {
        let next = record_spec(m, attempts[0]);
        let rest = attempts.drop_first();
        assert forall|i: int| 0 <= i < rest.len() implies !accepts(next.policy, #[trigger] rest[i]) by {
            assert(rest[i] == attempts[i + 1]);
        }
        if m.first is None {
            assert(attempts[0] is None);
            assert forall|i: int| 0 <= i < rest.len() implies #[trigger] rest[i] is None by {
                assert(rest[i] == attempts[i + 1]);
            }
        }
        lemma_run_unaccepted(next, rest);
    }
}

/// With the first-answer policy, the first answer received is replied,
/// whether or not it is final: later candidates are not asked.
pub proof fn lemma_first_answer_replied(candidates: Seq<Upstream>, o: OutcomeModel)
    requires
        candidates.len() > 0,
    ensures
        next_spec(record_spec(fresh(candidates, FallbackPolicy::FirstAnswer), Some(o)))
            == StepModel::Reply(o),
{
}

/// Under either policy, a final answer from the candidate being asked is
/// replied at once.
pub proof fn lemma_final_answer_replied(m: ForwardingModel, o: OutcomeModel)
    requires
        !is_settled(m),
        is_final_spec(o.0, o.2),
    ensures
        next_spec(record_spec(m, Some(o))) == StepModel::Reply(o),
{
}

/// When no candidate can be reached, the forwarding ends with an empty
/// response once each candidate has been tried.
pub proof fn lemma_unreachable_replies_empty(
    candidates: Seq<Upstream>,
    policy: FallbackPolicy,
    attempts: Seq<Option<OutcomeModel>>,
)
    requires
        attempts.len() == candidates.len(),
        forall|i: int| 0 <= i < attempts.len() ==> #[trigger] attempts[i] is None,
    ensures
        next_spec(run_spec(fresh(candidates, policy), attempts)) == StepModel::ReplyEmpty,
{
    lemma_run_unaccepted(fresh(candidates, policy), attempts);
}

/// When candidates are tried until one is final and every candidate answers
/// with an answer that is not final, the first answer is replied, not the
/// last.
pub proof fn lemma_exhausted_replies_first(
    candidates: Seq<Upstream>,
    attempts: Seq<Option<OutcomeModel>>,
)
    requires
        candidates.len() > 0,
        attempts.len() == candidates.len(),
        forall|i: int| 0 <= i < attempts.len() ==> #[trigger] attempts[i] is Some,
        forall|i: int| 0 <= i < attempts.len() ==> !answered_final(#[trigger] attempts[i]),
    ensures
        next_spec(run_spec(fresh(candidates, FallbackPolicy::UntilFinal), attempts))
            == StepModel::Reply(attempts[0]->0),
{
    let m = fresh(candidates, FallbackPolicy::UntilFinal);
    let next = record_spec(m, attempts[0]);
    let rest = attempts.drop_first();
    assert forall|i: int| 0 <= i < rest.len() implies !accepts(next.policy, #[trigger] rest[i]) by {
        assert(rest[i] == attempts[i + 1]);
    }
    lemma_run_unaccepted(next, rest);
}

/// Once as many attempts as there are candidates have been reported (or an
/// answer was chosen), the forwarding asks for no further candidate: it
/// replies.
pub proof fn lemma_settles_within_candidates(
    m: ForwardingModel,
    attempts: Seq<Option<OutcomeModel>>,
)
    requires
        is_settled(m) || m.tried + attempts.len() >= m.candidates.len(),
    ensures
        is_settled(run_spec(m, attempts)),
        !(next_spec(run_spec(m, attempts)) is Fetch),
    decreases attempts.len(),
{
    if attempts.len() > 0 {
        lemma_settles_within_candidates(record_spec(m, attempts[0]), attempts.drop_first());
    }
}

} // verus!

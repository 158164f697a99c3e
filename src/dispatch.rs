use vstd::prelude::*;
use crate::links::ResolveError;

verus! {

/// How one token of a batch ended.
#[derive(Debug, Clone, PartialEq, Eq)]
pub enum Outcome {
    /// Resolved, and the host opened the URI it resolved to.
    Opened(String),
    /// Neither an alias nor a canonical key.
    ResolutionFailed(ResolveError),
    /// Resolved, but the host could not open it; carries the reason.
    OpenFailed(String),
}

/// Relies on num_cpus::get: the number of CPUs this process may use, which
/// its documentation promises is at least one.
#[verifier::external_body]
fn available_parallelism() -> (n: usize)
    ensures
        n >= 1,
{
    num_cpus::get()
}

/// The number of tokens that may be in flight at once: the requested count,
/// unless it is zero or more than the machine offers, in which case what the
/// machine offers.
pub open spec fn spec_effective_concurrency(max_workers: nat, available: nat) -> nat {
    if max_workers == 0 || max_workers > available {
        available
    } else {
        max_workers
    }
}

/// The concurrency a batch runs with, given the requested ceiling and the
/// available parallelism.
pub fn effective_concurrency(max_workers: usize, available: usize) -> (r: usize)
    requires
        available >= 1,
    ensures
        r == spec_effective_concurrency(max_workers as nat, available as nat),
        max_workers == 0 ==> r == available,
        max_workers > available ==> r == available,
        1 <= r <= available,
{
    if max_workers == 0 || max_workers > available {
        available
    } else {
        max_workers
    }
}

/// The number of started tokens, among the first `n`, that have no outcome yet.
pub open spec fn pending(outcomes: Seq<Option<Outcome>>, n: int) -> nat
    decreases n,
{
    if n <= 0 {
        0
    } else {
        pending(outcomes, n - 1) + if outcomes[n - 1] is None { 1nat } else { 0nat }
    }
}

proof fn lemma_pending_zero(outcomes: Seq<Option<Outcome>>, n: int)
    requires
        0 <= n <= outcomes.len(),
        pending(outcomes, n) == 0,
    ensures
        forall|i: int| 0 <= i < n ==> outcomes[i] is Some,
    decreases n,
{
    if n > 0 {
        lemma_pending_zero(outcomes, n - 1);
    }
}

proof fn lemma_pending_update(outcomes: Seq<Option<Outcome>>, n: int, i: int, o: Outcome)
    requires
        0 <= i < n <= outcomes.len(),
        outcomes[i] is None,
    ensures
        pending(outcomes.update(i, Some(o)), n) + 1 == pending(outcomes, n),
    decreases n,
{
    if n - 1 > i {
        lemma_pending_update(outcomes, n - 1, i, o);
    } else {
        lemma_pending_same(outcomes, outcomes.update(i, Some(o)), i);
    }
}

proof fn lemma_pending_same(a: Seq<Option<Outcome>>, b: Seq<Option<Outcome>>, n: int)
    requires
        0 <= n <= a.len(),
        n <= b.len(),
        forall|i: int| 0 <= i < n ==> a[i] == b[i],
    ensures
        pending(a, n) == pending(b, n),
    decreases n,
{
    if n > 0 {
        lemma_pending_same(a, b, n - 1);
    }
}

/// One batch of tokens being opened under a concurrency ceiling: which
/// tokens have been handed out, and the outcome of each that has finished.
/// The caller runs the work; this decides what may start and records what
/// ended.
pub struct Dispatch {
    tokens: Vec<String>,
    limit: usize,
    next: usize,
    in_flight: usize,
    outcomes: Vec<Option<Outcome>>,
}

impl Dispatch {
    /// The tokens of the batch, in the order given.
    pub closed spec fn spec_tokens(&self) -> Seq<Seq<char>> {
        self.tokens@.map_values(|t: String| t@)
    }

    /// The ceiling on tokens in flight.
    pub closed spec fn spec_limit(&self) -> nat {
        self.limit as nat
    }

    /// How many tokens have been handed out; they go out in input order.
    pub closed spec fn spec_started(&self) -> nat {
        self.next as nat
    }

    /// The outcome recorded for each token, `None` while it has none.
    pub closed spec fn spec_outcomes(&self) -> Seq<Option<Outcome>> {
        self.outcomes@
    }

    /// The tokens handed out that have no outcome yet.
    pub open spec fn spec_in_flight(&self) -> nat {
        pending(self.spec_outcomes(), self.spec_started() as int)
    }

    /// Every token has been handed out and has an outcome.
    pub open spec fn spec_finished(&self) -> bool {
        self.spec_started() == self.spec_tokens().len() && self.spec_in_flight() == 0
    }

    pub closed spec fn wf(&self) -> bool {
        &&& self.limit >= 1
        &&& self.next <= self.tokens@.len()
        &&& self.outcomes@.len() == self.tokens@.len()
        &&& self.in_flight == pending(self.outcomes@, self.next as int)
        &&& self.in_flight <= self.limit
        &&& forall|i: int| self.next <= i < self.outcomes@.len() ==> self.outcomes@[i] is None
    }

    /// The state of a batch that has not started, with the given available
    /// parallelism.
    pub fn with_parallelism(tokens: Vec<String>, max_workers: usize, available: usize) -> (d: Dispatch)
        requires
            available >= 1,
        ensures
            d.wf(),
            d.spec_tokens() == tokens@.map_values(|t: String| t@),
            d.spec_limit() == spec_effective_concurrency(max_workers as nat, available as nat),
            d.spec_started() == 0,
            d.spec_outcomes() == Seq::new(tokens@.len(), |i: int| None::<Outcome>),
    {
        let limit = effective_concurrency(max_workers, available);
        let mut outcomes: Vec<Option<Outcome>> = Vec::new();
        let mut i: usize = 0;
        while i < tokens.len()
            invariant
                i <= tokens@.len(),
                outcomes@ == Seq::new(i as nat, |j: int| None::<Outcome>),
            decreases tokens@.len() - i,
        {
            outcomes.push(None);
            i = i + 1;
        }
        let d = Dispatch { tokens, limit, next: 0, in_flight: 0, outcomes };
        assert(d.spec_outcomes() =~= Seq::new(d.tokens@.len(), |i: int| None::<Outcome>));
        d
    }

    /// The state of a batch that has not started, with the parallelism that
    /// this machine offers.
    pub fn new(tokens: Vec<String>, max_workers: usize) -> (d: Dispatch)
        ensures
            d.wf(),
            d.spec_tokens() == tokens@.map_values(|t: String| t@),
            1 <= d.spec_limit(),
            max_workers > 0 ==> d.spec_limit() <= max_workers,
            d.spec_started() == 0,
            d.spec_outcomes() == Seq::new(tokens@.len(), |i: int| None::<Outcome>),
    {
        let available = available_parallelism();
        Dispatch::with_parallelism(tokens, max_workers, available)
    }

    /// The number of tokens in the batch.
    pub fn len(&self) -> (n: usize)
        requires
            self.wf(),
        ensures
            n == self.spec_tokens().len(),
    {
        self.tokens.len()
    }

    /// The ceiling on tokens in flight.
    pub fn limit(&self) -> (n: usize)
        ensures
            n == self.spec_limit(),
    {
        self.limit
    }

    /// How many tokens have been handed out.
    pub fn started(&self) -> (n: usize)
        ensures
            n == self.spec_started(),
    {
        self.next
    }

    /// How many tokens are handed out and unfinished.
    pub fn in_flight(&self) -> (n: usize)
        requires
            self.wf(),
        ensures
            n == self.spec_in_flight(),
    {
        self.in_flight
    }

    /// Hands out the next token, with its position, when one is waiting and
    /// a slot is free; otherwise changes nothing.
    pub fn next_token(&mut self) -> (r: Option<(usize, String)>)
        requires
            old(self).wf(),
        ensures
            final(self).wf(),
            final(self).spec_tokens() == old(self).spec_tokens(),
            final(self).spec_limit() == old(self).spec_limit(),
            final(self).spec_outcomes() == old(self).spec_outcomes(),
            (old(self).spec_in_flight() < old(self).spec_limit()
                && old(self).spec_started() < old(self).spec_tokens().len()) ==> {
                &&& r is Some
                &&& r->Some_0.0 == old(self).spec_started()
                &&& r->Some_0.1@ == old(self).spec_tokens()[old(self).spec_started() as int]
                &&& final(self).spec_started() == old(self).spec_started() + 1
                &&& final(self).spec_in_flight() == old(self).spec_in_flight() + 1
            },
            !(old(self).spec_in_flight() < old(self).spec_limit()
                && old(self).spec_started() < old(self).spec_tokens().len()) ==> {
                &&& r is None
                &&& final(self).spec_started() == old(self).spec_started()
            },
    {
        if self.in_flight < self.limit && self.next < self.tokens.len() {
            let i = self.next;
            let token = self.tokens[i].clone();
            proof {
                assert(self.outcomes@[i as int] is None);
            }
            self.next = i + 1;
            self.in_flight = self.in_flight + 1;
            Some((i, token))
        } else {
            None
        }
    }

    /// Records the outcome of a token that is in flight, freeing its slot.
    /// Returns false, and changes nothing, for a position that was not handed
    /// out or already has an outcome.
    pub fn complete(&mut self, index: usize, outcome: Outcome) -> (recorded: bool)
        requires
            old(self).wf(),
        ensures
            final(self).wf(),
            final(self).spec_tokens() == old(self).spec_tokens(),
            final(self).spec_limit() == old(self).spec_limit(),
            final(self).spec_started() == old(self).spec_started(),
            recorded == (index < old(self).spec_started() && old(self).spec_outcomes()[index as int] is None),
            recorded ==> final(self).spec_outcomes() == old(self).spec_outcomes().update(index as int, Some(outcome)),
            recorded ==> final(self).spec_in_flight() + 1 == old(self).spec_in_flight(),
            !recorded ==> final(self).spec_outcomes() == old(self).spec_outcomes(),
    {
        if index < self.next && self.outcomes[index].is_none() {
            proof {
                lemma_pending_update(self.outcomes@, self.next as int, index as int, outcome);
            }
            self.outcomes.set(index, Some(outcome));
            self.in_flight = self.in_flight - 1;
            true
        } else {
            false
        }
    }

    /// Whether every token has been handed out and has an outcome.
    pub fn is_finished(&self) -> (r: bool)
        requires
            self.wf(),
        ensures
            r == self.spec_finished(),
    {
        self.next == self.tokens.len() && self.in_flight == 0
    }

    /// The outcome recorded for the token at `index`, if any.
    pub fn outcome(&self, index: usize) -> (r: Option<&Outcome>)
        requires
            self.wf(),
            index < self.spec_tokens().len(),
        ensures
            r == match self.spec_outcomes()[index as int] {
                Some(o) => Some(&o),
                None => None::<&Outcome>,
            },
    {
        match &self.outcomes[index] {
            Some(o) => Some(o),
            None => None,
        }
    }
}

/// The console line that reports how a token ended.
pub open spec fn report_text(token: Seq<char>, outcome: Outcome) -> Seq<char> {
    match outcome {
        Outcome::Opened(uri) => "opening "@ + uri@ + "..."@,
        Outcome::ResolutionFailed(ResolveError::NotFound(t)) => "[dkdc] skipping "@ + token + ": '"@
            + t@ + "' not found in [things] or [aliases]"@,
        Outcome::OpenFailed(reason) => "[dkdc] failed to open "@ + token + ": "@ + reason@,
    }
}

/// Builds the one line that reports how `token` ended.
pub fn report_line(token: &str, outcome: &Outcome) -> (r: String)
    ensures
        r@ == report_text(token@, *outcome),
{
    match outcome {
        Outcome::Opened(uri) => {
            let mut s = String::from_str("opening ");
            s.append(uri.as_str());
            s.append("...");
            s
        },
        Outcome::ResolutionFailed(ResolveError::NotFound(t)) => {
            let mut s = String::from_str("[dkdc] skipping ");
            s.append(token);
            s.append(": '");
            s.append(t.as_str());
            s.append("' not found in [things] or [aliases]");
            s
        },
        Outcome::OpenFailed(reason) => {
            let mut s = String::from_str("[dkdc] failed to open ");
            s.append(token);
            s.append(": ");
            s.append(reason.as_str());
            s
        },
    }
}

/// A batch never holds more tokens in flight than its ceiling.
pub proof fn lemma_in_flight_within_limit(d: &Dispatch)
    requires
        d.wf(),
    ensures
        d.spec_in_flight() <= d.spec_limit(),
        1 <= d.spec_limit(),
{
}

/// A finished batch has exactly one outcome for each of its tokens.
pub proof fn lemma_finished_batch_has_every_outcome(d: &Dispatch)
    requires
        d.wf(),
        d.spec_finished(),
    ensures
        d.spec_outcomes().len() == d.spec_tokens().len(),
        forall|i: int| 0 <= i < d.spec_tokens().len() ==> d.spec_outcomes()[i] is Some,
{
    lemma_pending_zero(d.outcomes@, d.next as int);
}

/// An unfinished batch can always move: a token can be handed out, or one
/// is in flight and its completion is awaited.
pub proof fn lemma_unfinished_batch_can_progress(d: &Dispatch)
    requires
        d.wf(),
        !d.spec_finished(),
    ensures
        (d.spec_in_flight() < d.spec_limit() && d.spec_started() < d.spec_tokens().len())
            || d.spec_in_flight() > 0,
{
}

} // verus!

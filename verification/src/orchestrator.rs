//! Bookkeeping of a run over many cases: which case starts next, which are
//! under way, and which failure, if any, ended the run.
//!
//! The orchestrator decides and never executes anything. Workers ask it for a
//! case with [`Orchestrator::claim`], run the case, and hand the verdict back
//! with [`Orchestrator::report`]. Callers that share one orchestrator among
//! workers keep it behind a lock, so that each call is one step.

use vstd::prelude::*;
use crate::outcome::Verdict;
use crate::stop::{Failure, StopFlag};

verus! {

/// Where a run stands.
#[derive(Debug, Clone, Copy, PartialEq, Eq, Structural)]
pub enum Phase {
    /// Cases are still to be started or to be reported.
    Running,
    /// A case failed. No further case starts.
    StoppedOnFailure,
    /// Every case was started and reported, and none failed.
    CompletedAllCases,
}

/// Answer to a worker that asks for a case.
#[derive(Debug, Clone, Copy, PartialEq, Eq, Structural)]
pub enum Claim {
    /// Run the case with this index.
    Start(u64),
    /// As many cases are under way as may run side by side: ask again later.
    Busy,
    /// No case will start any more: the run has failed or has handed out all
    /// of its cases.
    Closed,
}

/// What is to be done about a reported verdict.
#[derive(Debug, Clone, Copy, PartialEq, Eq, Structural)]
pub enum Disposition {
    /// The case passed.
    Passed,
    /// The case is the first failure of the run: its input is to be kept and
    /// the failure reported.
    Persist(Failure),
    /// The case failed after the run had already failed: nothing is kept.
    Discard,
    /// No case with this index is under way: the report is ignored.
    Unknown,
}

/// Mathematical model of an [`Orchestrator`].
pub struct RunView {
    /// Number of cases of the run.
    pub total: u64,
    /// How many cases may be under way at once.
    pub parallelism: usize,
    /// Number of cases started so far. Their indices count from one, so the
    /// last case that started has this index.
    pub started: u64,
    /// Indices of the cases that were started and are not yet reported.
    pub in_flight: Set<u64>,
    /// The first failure reported, if any.
    pub failure: Option<Failure>,
}

impl RunView {
    /// State of a run of `total` cases before any case has started.
    pub open spec fn initial(total: u64, parallelism: usize) -> RunView {
        RunView { total, parallelism, started: 0, in_flight: Set::empty(), failure: None }
    }

    /// What holds of every state that a run can reach.
    pub open spec fn wf(self) -> bool {
        &&& self.started <= self.total
        &&& self.in_flight.finite()
        &&& self.in_flight.len() <= self.parallelism
        &&& forall|i: u64| #[trigger] self.in_flight.contains(i) ==> 1 <= i <= self.started
        &&& match self.failure {
            Some(f) => f.verdict.is_failure() && 1 <= f.index <= self.started
                && !self.in_flight.contains(f.index),
            None => true,
        }
    }

    /// The phase of the run.
    pub open spec fn phase(self) -> Phase {
        if self.failure is Some {
            Phase::StoppedOnFailure
        } else if self.started == self.total && self.in_flight.is_empty() {
            Phase::CompletedAllCases
        } else {
            Phase::Running
        }
    }

    /// State and answer after a worker has asked for a case.
    pub open spec fn claim(self) -> (RunView, Claim) {
        if self.failure is Some || self.started >= self.total {
            (self, Claim::Closed)
        } else if self.in_flight.len() >= self.parallelism {
            (self, Claim::Busy)
        } else {
            let index = (self.started + 1) as u64;
            (
                RunView { started: index, in_flight: self.in_flight.insert(index), ..self },
                Claim::Start(index),
            )
        }
    }

    /// State and answer after the verdict on case `index` was reported.
    pub open spec fn report(self, index: u64, verdict: Verdict) -> (RunView, Disposition) {
        if !self.in_flight.contains(index) {
            (self, Disposition::Unknown)
        } else {
            let rest = RunView { in_flight: self.in_flight.remove(index), ..self };
            if !verdict.is_failure() {
                (rest, Disposition::Passed)
            } else if self.failure is Some {
                (rest, Disposition::Discard)
            } else {
                let failure = Failure { index, verdict };
                (RunView { failure: Some(failure), ..rest }, Disposition::Persist(failure))
            }
        }
    }
}

/// Every step keeps a run well formed.
pub proof fn lemma_steps_preserve_wf(s: RunView, index: u64, verdict: Verdict)
    requires
        s.wf(),
    ensures
        s.claim().0.wf(),
        s.report(index, verdict).0.wf(),
{
    if s.claim().1 is Start {
        let i = (s.started + 1) as u64;
        assert(!s.in_flight.contains(i));
    }
}

/// No more cases are under way than were started.
pub proof fn lemma_in_flight_bounded(s: RunView)
    requires
        s.wf(),
    ensures
        s.in_flight.len() <= s.started,
{
    let all = Set::new(|i: u64| 1 <= i <= s.started);
    let upto = s.started as int;
    assert(all.finite() && all.len() == upto) by {
        lemma_first_indices(s.started);
    }
    vstd::set_lib::lemma_len_subset(s.in_flight, all);
}

/// There are `n` indices from 1 to `n`.
pub proof fn lemma_first_indices(n: u64)
    ensures
        Set::new(|i: u64| 1 <= i <= n).finite(),
        Set::new(|i: u64| 1 <= i <= n).len() == n,
    decreases n,
{
    let all = Set::new(|i: u64| 1 <= i <= n);
    if n == 0 {
        assert(all =~= Set::empty());
    } else {
        let fewer = Set::new(|i: u64| 1 <= i <= (n - 1) as u64);
        lemma_first_indices((n - 1) as u64);
        assert(all =~= fewer.insert(n));
    }
}

/// The state of a run over many cases.
#[derive(Debug)]
pub struct Orchestrator {
    total: u64,
    parallelism: usize,
    started: u64,
    in_flight: Vec<u64>,
    stop: StopFlag,
}

impl View for Orchestrator {
    type V = RunView;

    closed spec fn view(&self) -> RunView {
        RunView {
            total: self.total,
            parallelism: self.parallelism,
            started: self.started,
            in_flight: self.in_flight@.to_set(),
            failure: self.stop@,
        }
    }
}

impl Orchestrator {
    #[verifier::type_invariant]
    spec fn inv(&self) -> bool {
        &&& self.in_flight@.no_duplicates()
        &&& self@.wf()
    }

    /// A run of `total` cases, of which at most `parallelism` are under way at
    /// any time. No case has started.
    pub fn new(total: u64, parallelism: usize) -> (run: Orchestrator)
        ensures
            run@ == RunView::initial(total, parallelism),
            run@.wf(),
    {
        let in_flight: Vec<u64> = Vec::new();
        assert(in_flight@.to_set() =~= Set::empty());
        Orchestrator { total, parallelism, started: 0, in_flight, stop: StopFlag::new() }
    }

    /// The phase of the run.
    pub fn phase(&self) -> (p: Phase)
        ensures
            p == self@.phase(),
            self@.wf(),
    {
        proof {
            use_type_invariant(self);
            self.in_flight@.lemma_cardinality_of_empty_set_is_0();
        }
        if self.stop.is_set() {
            Phase::StoppedOnFailure
        } else if self.started == self.total && self.in_flight.len() == 0 {
            Phase::CompletedAllCases
        } else {
            Phase::Running
        }
    }

    /// The failure that stopped the run, if it has failed.
    pub fn failure(&self) -> (f: Option<Failure>)
        ensures
            f == self@.failure,
            self@.wf(),
    {
        proof {
            use_type_invariant(self);
        }
        self.stop.winner()
    }

    /// Number of cases started so far.
    pub fn started(&self) -> (n: u64)
        ensures
            n == self@.started,
            self@.wf(),
    {
        proof {
            use_type_invariant(self);
        }
        self.started
    }

    /// Number of cases under way.
    pub fn in_flight(&self) -> (n: usize)
        ensures
            n == self@.in_flight.len(),
            self@.wf(),
    {
        proof {
            use_type_invariant(self);
            self.in_flight@.unique_seq_to_set();
        }
        self.in_flight.len()
    }

    /// Number of cases that were started and have been reported.
    pub fn completed(&self) -> (n: u64)
        ensures
            n == self@.started - self@.in_flight.len(),
            self@.wf(),
    {
        proof {
            use_type_invariant(self);
            self.in_flight@.unique_seq_to_set();
            lemma_in_flight_bounded(self@);
        }
        self.started - (self.in_flight.len() as u64)
    }

    /// Asks for the next case. The case starts only while the run has not
    /// failed, cases are left, and fewer cases than may run side by side are
    /// under way.
    pub fn claim(&mut self) -> (answer: Claim)
        ensures
            old(self)@.wf(),
            final(self)@.wf(),
            final(self)@ == old(self)@.claim().0,
            answer == old(self)@.claim().1,
    {
        proof {
            use_type_invariant(&*self);
            self.in_flight@.unique_seq_to_set();
        }
        if self.stop.is_set() || self.started >= self.total {
            return Claim::Closed;
        }
        if self.in_flight.len() >= self.parallelism {
            return Claim::Busy;
        }
        let index: u64 = self.started + 1;
        let ghost before = self.in_flight@;
        assert(!before.contains(index)) by {
            if before.contains(index) {
                assert(before.to_set().contains(index));
            }
        }
        // The cases under way are taken out while the run changes, so that
        // it is well formed after every assignment.
        let mut flight: Vec<u64> = Vec::new();
        assert(flight@.to_set() =~= Set::empty());
        core::mem::swap(&mut self.in_flight, &mut flight);
        self.started = index;
        flight.push(index);
        proof {
            before.push(index).unique_seq_to_set();
            before.lemma_push_to_set_commute(index);
            assert(before.push(index).no_duplicates());
        }
        core::mem::swap(&mut self.in_flight, &mut flight);
        Claim::Start(index)
    }

    /// Hands in the verdict on case `index`. Only the first failure of a run
    /// is to be persisted; the case leaves the cases under way in any event.
    pub fn report(&mut self, index: u64, verdict: Verdict) -> (answer: Disposition)
        ensures
            old(self)@.wf(),
            final(self)@.wf(),
            final(self)@ == old(self)@.report(index, verdict).0,
            answer == old(self)@.report(index, verdict).1,
    {
        proof {
            use_type_invariant(&*self);
        }
        let ghost before = self.in_flight@;
        let mut at: usize = 0;
        while at < self.in_flight.len() && self.in_flight[at] != index
            invariant
                at <= self.in_flight.len(),
                self.in_flight@ == before,
                forall|k: int| 0 <= k < at ==> before[k] != index,
            decreases self.in_flight.len() - at,
        {
            at = at + 1;
        }
        if at >= self.in_flight.len() {
            assert(!before.to_set().contains(index));
            return Disposition::Unknown;
        }
        proof {
            let after = before.remove(at as int);
            assert(after.no_duplicates());
            assert(after.to_set() =~= before.to_set().remove(index)) by {
                assert forall|x: u64| after.to_set().contains(x) <==> before.to_set().remove(
                    index,
                ).contains(x) by {
                    if after.contains(x) {
                        let k = choose|k: int| 0 <= k < after.len() && after[k] == x;
                        if k < at {
                            assert(before[k] == x);
                        } else {
                            assert(before[k + 1] == x);
                        }
                    }
                    if before.contains(x) && x != index {
                        let k = choose|k: int| 0 <= k < before.len() && before[k] == x;
                        if k < at {
                            assert(after[k] == x);
                        } else {
                            assert(after[k - 1] == x);
                        }
                    }
                }
            }
            after.unique_seq_to_set();
            before.unique_seq_to_set();
            assert(before.to_set().contains(index));
        }
        let mut flight: Vec<u64> = Vec::new();
        assert(flight@.to_set() =~= Set::empty());
        core::mem::swap(&mut self.in_flight, &mut flight);
        flight.remove(at);
        core::mem::swap(&mut self.in_flight, &mut flight);
        if !verdict.fails() {
            return Disposition::Passed;
        }
        let failure = Failure { index, verdict };
        if self.stop.raise(failure) {
            Disposition::Persist(failure)
        } else {
            Disposition::Discard
        }
    }
}

} // verus!

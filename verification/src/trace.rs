//! What holds of whole runs: laws over every sequence of steps that workers
//! can take on one orchestrator, in whatever order they take them.

use vstd::prelude::*;
use crate::orchestrator::{lemma_steps_preserve_wf, Claim, Disposition, Phase, RunView};
use crate::outcome::Verdict;
use crate::stop::Failure;

verus! {

/// One step of a worker.
pub enum Event {
    /// The worker asks for a case.
    Claim,
    /// The worker hands in the verdict on the case with this index.
    Report(u64, Verdict),
}

/// The answer to one step.
pub enum Effect {
    /// The answer to a worker that asked for a case.
    Claimed(Claim),
    /// The answer to a worker that handed in a verdict.
    Reported(Disposition),
}

/// State and answer after one step.
pub open spec fn step(s: RunView, e: Event) -> (RunView, Effect) {
    match e {
        Event::Claim => (s.claim().0, Effect::Claimed(s.claim().1)),
        Event::Report(index, verdict) => (
            s.report(index, verdict).0,
            Effect::Reported(s.report(index, verdict).1),
        ),
    }
}

/// State after the steps `events`, taken in this order from state `s`.
pub open spec fn run(s: RunView, events: Seq<Event>) -> RunView
    decreases events.len(),
{
    if events.len() == 0 {
        s
    } else {
        step(run(s, events.drop_last()), events.last()).0
    }
}

/// The answer to step `i` of `events`.
pub open spec fn effect_at(s: RunView, events: Seq<Event>, i: int) -> Effect {
    step(run(s, events.take(i)), events[i]).1
}

/// Every report in `events` carries the verdict that `verdicts` gives its case.
pub open spec fn reports_agree(events: Seq<Event>, verdicts: spec_fn(u64) -> Verdict) -> bool {
    forall|i: int|
        0 <= i < events.len() ==> match #[trigger] events[i] {
            Event::Report(index, verdict) => verdict == verdicts(index),
            Event::Claim => true,
        }
}

/// Every case that has been reported passed, unless the run has failed; and
/// the failure of a failed run is the verdict of its case.
pub open spec fn settled(s: RunView, verdicts: spec_fn(u64) -> Verdict) -> bool {
    match s.failure {
        Some(f) => verdicts(f.index) == f.verdict,
        None => forall|index: u64|
            1 <= index <= s.started && !s.in_flight.contains(index) ==> #[trigger] verdicts(index)
                == Verdict::Match,
    }
}

/// A run stays well formed whatever steps are taken.
pub proof fn lemma_run_wf(s: RunView, events: Seq<Event>)
    requires
        s.wf(),
    ensures
        run(s, events).wf(),
    decreases events.len(),
{
    if events.len() > 0 {
        lemma_run_wf(s, events.drop_last());
        let before = run(s, events.drop_last());
        match events.last() {
            Event::Claim => {
                lemma_steps_preserve_wf(before, 0, Verdict::Match);
            },
            Event::Report(index, verdict) => {
                lemma_steps_preserve_wf(before, index, verdict);
            },
        }
    }
}

/// A phase other than `Running` is final: no step leaves it, and no step
/// starts a case in it.
pub proof fn lemma_terminal_phase_is_final(s: RunView, e: Event)
    requires
        s.wf(),
        s.phase() != Phase::Running,
    ensures
        step(s, e).0.phase() == s.phase(),
        !(step(s, e).1 matches Effect::Claimed(Claim::Start(_))),
        !(step(s, e).1 matches Effect::Reported(Disposition::Persist(_))),
{
    if s.failure is None {
        assert(s.in_flight =~= Set::empty());
    }
}

/// The failure of a run, once recorded, is never replaced, and cases are
/// never taken back.
pub proof fn lemma_run_keeps_failure(s: RunView, events: Seq<Event>)
    ensures
        s.failure is Some ==> run(s, events).failure == s.failure,
        s.started <= run(s, events).started,
        run(s, events).total == s.total,
        run(s, events).parallelism == s.parallelism,
    decreases events.len(),
{
    if events.len() > 0 {
        lemma_run_keeps_failure(s, events.drop_last());
    }
}

/// Running `events` up to step `j` is running them up to step `i` and then
/// the steps from `i` to `j`.
pub proof fn lemma_run_split(s: RunView, events: Seq<Event>, i: int, j: int)
    requires
        0 <= i <= j <= events.len(),
    ensures
        run(s, events.take(j)) == run(run(s, events.take(i)), events.subrange(i, j)),
    decreases j - i,
{
    if i == j {
        assert(events.subrange(i, j) =~= Seq::empty());
    } else {
        lemma_run_split(s, events, i, j - 1);
        assert(events.take(j).drop_last() =~= events.take(j - 1));
        assert(events.subrange(i, j).drop_last() =~= events.subrange(i, j - 1));
        assert(events.take(j).last() == events.subrange(i, j).last());
    }
}

/// Once a step has answered that a failure is to be persisted, no later step
/// starts a case, and no later step answers so again: a run persists at most
/// one failure, however its steps interleave.
pub proof fn lemma_nothing_follows_the_first_failure(
    s: RunView,
    events: Seq<Event>,
    i: int,
    j: int,
)
    requires
        0 <= i < j < events.len(),
        effect_at(s, events, i) matches Effect::Reported(Disposition::Persist(_)),
    ensures
        !(effect_at(s, events, j) matches Effect::Claimed(Claim::Start(_))),
        !(effect_at(s, events, j) matches Effect::Reported(Disposition::Persist(_))),
{
    let after = run(s, events.take(i + 1));
    assert(events.take(i + 1).drop_last() =~= events.take(i));
    assert(events.take(i + 1).last() == events[i]);
    assert(after.failure is Some);
    lemma_run_split(s, events, i + 1, j);
    lemma_run_keeps_failure(after, events.subrange(i + 1, j));
}

/// The failure that a run persists is the first failure handed in: before
/// the step that persists, no step was answered with a failure, and the
/// run keeps this failure to its end.
pub proof fn lemma_persisted_failure_is_the_first(s: RunView, events: Seq<Event>, i: int, k: int)
    requires
        0 <= k < i < events.len(),
        effect_at(s, events, i) matches Effect::Reported(Disposition::Persist(_)),
    ensures
        !(effect_at(s, events, k) matches Effect::Reported(Disposition::Persist(_))),
        !(effect_at(s, events, k) matches Effect::Reported(Disposition::Discard)),
        effect_at(s, events, i) matches Effect::Reported(Disposition::Persist(f)) && run(
            s,
            events,
        ).failure == Some(f),
{
    let at_i = run(s, events.take(i));
    assert(at_i.failure is None);
    let after_k = run(s, events.take(k + 1));
    assert(events.take(k + 1).drop_last() =~= events.take(k));
    assert(events.take(k + 1).last() == events[k]);
    lemma_run_split(s, events, k + 1, i);
    lemma_run_keeps_failure(after_k, events.subrange(k + 1, i));
    lemma_run_keeps_failure(s, events.take(k));
    if s.failure is Some {
        lemma_run_keeps_failure(s, events.take(i));
    }
    let after_i = run(s, events.take(i + 1));
    assert(events.take(i + 1).drop_last() =~= events.take(i));
    assert(events.take(i + 1).last() == events[i]);
    lemma_run_split(s, events, i + 1, events.len() as int);
    lemma_run_keeps_failure(after_i, events.subrange(i + 1, events.len() as int));
    assert(events.take(events.len() as int) =~= events);
}

/// A run that has failed has persisted its failure: some step was answered
/// that this very failure is to be persisted.
pub proof fn lemma_failure_was_persisted(s: RunView, events: Seq<Event>)
    requires
        s.failure is None,
    ensures
        run(s, events).failure matches Some(failure) ==> exists|i: int|
            0 <= i < events.len() && #[trigger] effect_at(s, events, i) == Effect::Reported(
                Disposition::Persist(failure),
            ),
    decreases events.len(),
{
    if events.len() > 0 {
        let head = events.drop_last();
        let before = run(s, head);
        lemma_failure_was_persisted(s, head);
        if let Some(failure) = run(s, events).failure {
            if before.failure is Some {
                let i = choose|i: int|
                    0 <= i < head.len() && #[trigger] effect_at(s, head, i) == Effect::Reported(
                        Disposition::Persist(failure),
                    );
                assert(head.take(i) =~= events.take(i));
                assert(effect_at(s, events, i) == effect_at(s, head, i));
            } else {
                let last = events.len() - 1;
                assert(events.take(last) =~= head);
                assert(effect_at(s, events, last) == Effect::Reported(
                    Disposition::Persist(failure),
                ));
            }
        }
    }
}

/// While every report carries the verdict of its case, a run stays settled.
pub proof fn lemma_run_settled(s: RunView, events: Seq<Event>, verdicts: spec_fn(u64) -> Verdict)
    requires
        s.wf(),
        settled(s, verdicts),
        reports_agree(events, verdicts),
    ensures
        settled(run(s, events), verdicts),
    decreases events.len(),
{
    if events.len() > 0 {
        let head = events.drop_last();
        assert(reports_agree(head, verdicts)) by {
            assert forall|i: int| 0 <= i < head.len() implies match #[trigger] head[i] {
                Event::Report(index, verdict) => verdict == verdicts(index),
                Event::Claim => true,
            } by {
                assert(head[i] == events[i]);
            }
        }
        lemma_run_settled(s, head, verdicts);
        lemma_run_wf(s, head);
        let before = run(s, head);
        let e = events.last();
        assert(e == events[events.len() - 1]);
        let after = step(before, e).0;
        match e {
            Event::Claim => {
                if before.claim().1 is Start {
                    let fresh = (before.started + 1) as u64;
                    assert(after.in_flight.contains(fresh));
                }
            },
            Event::Report(index, verdict) => {
                assert(verdict == verdicts(index));
            },
        }
    }
}

/// The outcome of a run does not depend on how its steps interleave. Let
/// each case have one verdict. A run from the start that has completed all
/// cases shows that every case passes; a run that has stopped shows a case
/// that fails, with its verdict. So of two runs over the same cases that have
/// both ended, either both completed or both stopped on a failure.
pub proof fn lemma_outcome_is_independent_of_schedule(
    total: u64,
    first_parallelism: usize,
    second_parallelism: usize,
    first: Seq<Event>,
    second: Seq<Event>,
    verdicts: spec_fn(u64) -> Verdict,
)
    requires
        reports_agree(first, verdicts),
        reports_agree(second, verdicts),
        run(RunView::initial(total, first_parallelism), first).phase() != Phase::Running,
        run(RunView::initial(total, second_parallelism), second).phase() != Phase::Running,
    ensures
        run(RunView::initial(total, first_parallelism), first).phase() == run(
            RunView::initial(total, second_parallelism),
            second,
        ).phase(),
        run(RunView::initial(total, first_parallelism), first).phase() == Phase::CompletedAllCases
            <==> forall|index: u64|
            1 <= index <= total ==> #[trigger] verdicts(index) == Verdict::Match,
{
    let a = RunView::initial(total, first_parallelism);
    let b = RunView::initial(total, second_parallelism);
    lemma_run_settled(a, first, verdicts);
    lemma_run_settled(b, second, verdicts);
    lemma_run_wf(a, first);
    lemma_run_wf(b, second);
    lemma_run_keeps_failure(a, first);
    lemma_run_keeps_failure(b, second);
    let enda = run(a, first);
    let endb = run(b, second);
    if enda.phase() == Phase::CompletedAllCases {
        assert forall|index: u64| 1 <= index <= total implies #[trigger] verdicts(index)
            == Verdict::Match by {
            assert(!enda.in_flight.contains(index));
        }
    }
    if endb.phase() == Phase::CompletedAllCases {
        assert forall|index: u64| 1 <= index <= total implies #[trigger] verdicts(index)
            == Verdict::Match by {
            assert(!endb.in_flight.contains(index));
        }
    }
}

/// The first failure among `verdicts`, the verdicts of the cases in the
/// order of their indices, which count from one.
pub open spec fn first_failure(verdicts: Seq<Verdict>) -> Option<Failure>
    decreases verdicts.len(),
{
    if verdicts.len() == 0 {
        None
    } else {
        match first_failure(verdicts.drop_last()) {
            Some(failure) => Some(failure),
            None => if verdicts.last().is_failure() {
                Some(Failure { index: verdicts.len() as u64, verdict: verdicts.last() })
            } else {
                None
            },
        }
    }
}

/// The steps of one worker that takes the cases one after another: it asks
/// for a case and hands in its verdict, once for each of `verdicts`.
pub open spec fn one_after_another(verdicts: Seq<Verdict>) -> Seq<Event>
    decreases verdicts.len(),
{
    if verdicts.len() == 0 {
        Seq::empty()
    } else {
        one_after_another(verdicts.drop_last()).push(Event::Claim).push(
            Event::Report(verdicts.len() as u64, verdicts.last()),
        )
    }
}

/// The first failure is a failure of the case whose index it bears, and
/// every case before it passed.
pub proof fn lemma_first_failure(verdicts: Seq<Verdict>)
    requires
        verdicts.len() <= u64::MAX,
    ensures
        match first_failure(verdicts) {
            Some(failure) => {
                &&& 1 <= failure.index <= verdicts.len()
                &&& failure.verdict == verdicts[failure.index - 1]
                &&& failure.verdict.is_failure()
                &&& forall|i: int| 0 <= i < failure.index - 1 ==> verdicts[i] == Verdict::Match
            },
            None => forall|i: int| 0 <= i < verdicts.len() ==> verdicts[i] == Verdict::Match,
        },
    decreases verdicts.len(),
{
    if verdicts.len() > 0 {
        let head = verdicts.drop_last();
        lemma_first_failure(head);
        assert forall|i: int| 0 <= i < head.len() implies head[i] == verdicts[i] by {}
        match first_failure(head) {
            Some(failure) => {
                assert(head[failure.index - 1] == verdicts[failure.index - 1]);
                assert forall|i: int| 0 <= i < failure.index - 1 implies verdicts[i]
                    == Verdict::Match by {
                    assert(head[i] == verdicts[i]);
                }
            },
            None => {
                assert forall|i: int| 0 <= i < verdicts.len() - 1 implies verdicts[i]
                    == Verdict::Match by {
                    assert(head[i] == verdicts[i]);
                }
            },
        }
    }
}

/// A run in which one worker takes the cases one after another stops at the
/// first case that fails: that case is the failure of the run, it is the
/// last case that was started, and nothing is left under way. Where no case
/// fails, every case was started and the run has completed.
pub proof fn lemma_sequential_run_stops_at_first_failure(
    total: u64,
    parallelism: usize,
    verdicts: Seq<Verdict>,
)
    requires
        parallelism >= 1,
        verdicts.len() <= total,
    ensures
        run(RunView::initial(total, parallelism), one_after_another(verdicts)) == (RunView {
            total,
            parallelism,
            started: match first_failure(verdicts) {
                Some(failure) => failure.index,
                None => verdicts.len() as u64,
            },
            in_flight: Set::empty(),
            failure: first_failure(verdicts),
        }),
        verdicts.len() == total && first_failure(verdicts) is None ==> run(
            RunView::initial(total, parallelism),
            one_after_another(verdicts),
        ).phase() == Phase::CompletedAllCases,
    decreases verdicts.len(),
{
    let start = RunView::initial(total, parallelism);
    if verdicts.len() > 0 {
        let head = verdicts.drop_last();
        lemma_sequential_run_stops_at_first_failure(total, parallelism, head);
        lemma_first_failure(head);
        let index = verdicts.len() as u64;
        let claimed = one_after_another(head).push(Event::Claim);
        let events = one_after_another(verdicts);
        assert(events.drop_last() =~= claimed);
        assert(claimed.drop_last() =~= one_after_another(head));
        let before = run(start, one_after_another(head));
        let between = run(start, claimed);
        assert(between == step(before, Event::Claim).0);
        assert(run(start, events) == step(between, events.last()).0);
        assert(before.in_flight.len() == 0);
        if first_failure(head) is None {
            assert(between.in_flight =~= set![index]);
            assert(between.in_flight.remove(index) =~= Set::empty());
        }
    }
}

} // verus!

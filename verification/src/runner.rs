//! The protocol of one execution: what is to be done with a program, in what
//! order, and what comes of it.
//!
//! The runner decides; its caller acts. The caller begins in
//! [`RunnerState::Spawning`], performs the action that [`action`] names for
//! the state, and hands the event that came of it to [`advance`], until the
//! action is to return.

use vstd::prelude::*;
use crate::outcome::{ExecutionResult, ResultView};

verus! {

/// An environment failure of one execution. It is no verdict on the program.
#[derive(Debug, Clone, Copy, PartialEq, Eq, Structural)]
pub enum RunnerFault {
    /// The program could not be started.
    Spawn,
    /// The input could not be written to the program.
    Write,
    /// Waiting for the program failed.
    Wait,
    /// The output of the program could not be read.
    Read,
}

/// How an execution ends.
#[derive(Debug, Clone, Copy, PartialEq, Eq, Structural)]
pub enum Conclusion {
    /// The program exited in time and its output was read.
    Output,
    /// The program was still running when its time limit elapsed.
    TimedOut,
    /// The execution failed.
    Fault(RunnerFault),
}

/// Where an execution stands.
#[derive(Debug, Clone, Copy, PartialEq, Eq, Structural)]
pub enum RunnerState {
    /// The program is to be started.
    Spawning,
    /// The program runs and has not been given its input.
    Feeding,
    /// The program has its whole input and its standard input is closed.
    Waiting,
    /// The program has exited in time.
    Collecting,
    /// The program is to be killed, and the execution will end as given.
    Killing(Conclusion),
    /// The program was killed and is to be reaped, and the execution will
    /// end as given.
    Reaping(Conclusion),
    /// The execution has ended and no program of it is running.
    Done(Conclusion),
}

/// What the caller is to do next.
#[derive(Debug, Clone, Copy, PartialEq, Eq, Structural)]
pub enum RunnerAction {
    /// Start the program with piped standard input and output and with its
    /// standard error discarded.
    Spawn,
    /// Write the whole input to the program and close its standard input.
    Feed,
    /// Wait until the program exits or the time limit elapses.
    Wait,
    /// Read all that the program wrote to its standard output.
    Collect,
    /// Kill the program at once.
    Kill,
    /// Wait for the killed program, so that nothing of it is left.
    Reap,
    /// Return: the execution has ended as given.
    Return(Conclusion),
}

/// What came of an action.
#[derive(Debug, Clone, Copy, PartialEq, Eq, Structural)]
pub enum RunnerEvent {
    /// The action was done. Of waiting: the program exited in time.
    Succeeded,
    /// Of waiting: the time limit elapsed and the program still runs.
    Elapsed,
    /// The action failed.
    Failed,
}

/// The action that a state calls for.
pub open spec fn action_of(state: RunnerState) -> RunnerAction {
    match state {
        RunnerState::Spawning => RunnerAction::Spawn,
        RunnerState::Feeding => RunnerAction::Feed,
        RunnerState::Waiting => RunnerAction::Wait,
        RunnerState::Collecting => RunnerAction::Collect,
        RunnerState::Killing(_) => RunnerAction::Kill,
        RunnerState::Reaping(_) => RunnerAction::Reap,
        RunnerState::Done(conclusion) => RunnerAction::Return(conclusion),
    }
}

/// The state that follows `state` once its action has ended in `event`.
///
/// A failure before the program runs ends the execution. A failure while it
/// runs, like an elapsed time limit, leads to killing and reaping the program
/// first. Killing and reaping cannot fail the execution: a program that is
/// gone already is as good as killed. Only waiting can run out of time;
/// elsewhere `Elapsed` changes nothing.
pub open spec fn next_state(state: RunnerState, event: RunnerEvent) -> RunnerState {
    match (state, event) {
        (RunnerState::Done(conclusion), _) => RunnerState::Done(conclusion),
        (RunnerState::Waiting, RunnerEvent::Elapsed) => RunnerState::Killing(Conclusion::TimedOut),
        (_, RunnerEvent::Elapsed) => state,
        (RunnerState::Spawning, RunnerEvent::Succeeded) => RunnerState::Feeding,
        (RunnerState::Spawning, RunnerEvent::Failed) => RunnerState::Done(
            Conclusion::Fault(RunnerFault::Spawn),
        ),
        (RunnerState::Feeding, RunnerEvent::Succeeded) => RunnerState::Waiting,
        (RunnerState::Feeding, RunnerEvent::Failed) => RunnerState::Killing(
            Conclusion::Fault(RunnerFault::Write),
        ),
        (RunnerState::Waiting, RunnerEvent::Succeeded) => RunnerState::Collecting,
        (RunnerState::Waiting, RunnerEvent::Failed) => RunnerState::Killing(
            Conclusion::Fault(RunnerFault::Wait),
        ),
        (RunnerState::Collecting, RunnerEvent::Succeeded) => RunnerState::Done(Conclusion::Output),
        (RunnerState::Collecting, RunnerEvent::Failed) => RunnerState::Done(
            Conclusion::Fault(RunnerFault::Read),
        ),
        (RunnerState::Killing(conclusion), _) => RunnerState::Reaping(conclusion),
        (RunnerState::Reaping(conclusion), _) => RunnerState::Done(conclusion),
    }
}

/// The program of the execution may be running in this state.
pub open spec fn program_may_run(state: RunnerState) -> bool {
    match state {
        RunnerState::Feeding => true,
        RunnerState::Waiting => true,
        RunnerState::Killing(_) => true,
        RunnerState::Reaping(_) => true,
        _ => false,
    }
}

/// Number of actions that are still to be done, at most, before the
/// execution has ended.
pub open spec fn steps_left(state: RunnerState) -> nat {
    match state {
        RunnerState::Spawning => 5,
        RunnerState::Feeding => 4,
        RunnerState::Waiting => 3,
        RunnerState::Killing(_) => 2,
        RunnerState::Collecting => 1,
        RunnerState::Reaping(_) => 1,
        RunnerState::Done(_) => 0,
    }
}

/// State after the events `events`, in this order, from `state`.
pub open spec fn state_after(state: RunnerState, events: Seq<RunnerEvent>) -> RunnerState
    decreases events.len(),
{
    if events.len() == 0 {
        state
    } else {
        next_state(state_after(state, events.drop_last()), events.last())
    }
}

/// The action that `state` calls for.
pub fn action(state: RunnerState) -> (a: RunnerAction)
    ensures
        a == action_of(state),
        a is Return <==> state is Done,
        a is Return ==> !program_may_run(state),
{
    match state {
        RunnerState::Spawning => RunnerAction::Spawn,
        RunnerState::Feeding => RunnerAction::Feed,
        RunnerState::Waiting => RunnerAction::Wait,
        RunnerState::Collecting => RunnerAction::Collect,
        RunnerState::Killing(_) => RunnerAction::Kill,
        RunnerState::Reaping(_) => RunnerAction::Reap,
        RunnerState::Done(conclusion) => RunnerAction::Return(conclusion),
    }
}

/// The state that follows `state` once its action has ended in `event`.
pub fn advance(state: RunnerState, event: RunnerEvent) -> (next: RunnerState)
    ensures
        next == next_state(state, event),
{
    match state {
        RunnerState::Done(conclusion) => RunnerState::Done(conclusion),
        RunnerState::Spawning => match event {
            RunnerEvent::Succeeded => RunnerState::Feeding,
            RunnerEvent::Elapsed => state,
            RunnerEvent::Failed => RunnerState::Done(Conclusion::Fault(RunnerFault::Spawn)),
        },
        RunnerState::Feeding => match event {
            RunnerEvent::Succeeded => RunnerState::Waiting,
            RunnerEvent::Elapsed => state,
            RunnerEvent::Failed => RunnerState::Killing(Conclusion::Fault(RunnerFault::Write)),
        },
        RunnerState::Waiting => match event {
            RunnerEvent::Succeeded => RunnerState::Collecting,
            RunnerEvent::Elapsed => RunnerState::Killing(Conclusion::TimedOut),
            RunnerEvent::Failed => RunnerState::Killing(Conclusion::Fault(RunnerFault::Wait)),
        },
        RunnerState::Collecting => match event {
            RunnerEvent::Succeeded => RunnerState::Done(Conclusion::Output),
            RunnerEvent::Elapsed => state,
            RunnerEvent::Failed => RunnerState::Done(Conclusion::Fault(RunnerFault::Read)),
        },
        RunnerState::Killing(conclusion) => match event {
            RunnerEvent::Elapsed => state,
            _ => RunnerState::Reaping(conclusion),
        },
        RunnerState::Reaping(conclusion) => match event {
            RunnerEvent::Elapsed => state,
            _ => RunnerState::Done(conclusion),
        },
    }
}

/// What an execution hands back: the output that was read where the program
/// exited in time, a timeout where it did not, and the fault where the
/// execution failed.
pub fn conclude(conclusion: Conclusion, output: Vec<u8>) -> (r: Result<ExecutionResult, RunnerFault>)
    ensures
        match conclusion {
            Conclusion::Output => r matches Ok(result) && result@ == ResultView::Output(output@),
            Conclusion::TimedOut => r matches Ok(result) && result@ == ResultView::TimedOut,
            Conclusion::Fault(fault) => r matches Err(found) && found == fault,
        },
{
    match conclusion {
        Conclusion::Output => Ok(ExecutionResult::Output(output)),
        Conclusion::TimedOut => Ok(ExecutionResult::TimedOut),
        Conclusion::Fault(fault) => Err(fault),
    }
}

/// Every event that is an answer to the action of a state brings the
/// execution nearer to its end.
pub proof fn lemma_every_answer_makes_progress(state: RunnerState, event: RunnerEvent)
    requires
        !(state is Done),
        event is Elapsed ==> state is Waiting,
    ensures
        steps_left(next_state(state, event)) < steps_left(state),
{
}

/// An ended execution stays as it ended.
pub proof fn lemma_done_is_final(conclusion: Conclusion, events: Seq<RunnerEvent>)
    ensures
        state_after(RunnerState::Done(conclusion), events) == RunnerState::Done(conclusion),
    decreases events.len(),
{
    if events.len() > 0 {
        lemma_done_is_final(conclusion, events.drop_last());
    }
}

/// A failed kill and a failed reap change nothing: the execution goes on as
/// if they had been done.
pub proof fn lemma_termination_cannot_fail(state: RunnerState)
    requires
        state is Killing || state is Reaping,
    ensures
        next_state(state, RunnerEvent::Failed) == next_state(state, RunnerEvent::Succeeded),
        state matches RunnerState::Killing(conclusion) ==> next_state(state, RunnerEvent::Failed)
            == RunnerState::Reaping(conclusion),
        state matches RunnerState::Reaping(conclusion) ==> next_state(state, RunnerEvent::Failed)
            == RunnerState::Done(conclusion),
{
}

/// No step ends an execution while its program may be running, and a
/// program that may be running is left only by its exit in time or by being
/// reaped.
pub proof fn lemma_no_program_outlives_its_execution(state: RunnerState, event: RunnerEvent)
    ensures
        !program_may_run(RunnerState::Spawning),
        next_state(state, event) is Done ==> !program_may_run(next_state(state, event)),
        program_may_run(state) && !program_may_run(next_state(state, event)) ==> (state
            is Waiting && event is Succeeded) || (state is Reaping),
{
}

/// An execution ends as timed out only when its time limit elapsed while it
/// was waiting, and then only after the program was killed and reaped.
pub proof fn lemma_timeout_is_killed_and_reaped(state: RunnerState, event: RunnerEvent)
    ensures
        next_state(state, event) == RunnerState::Done(Conclusion::TimedOut) ==> state
            == RunnerState::Done(Conclusion::TimedOut) || state == RunnerState::Reaping(
            Conclusion::TimedOut,
        ),
        next_state(state, event) == RunnerState::Reaping(Conclusion::TimedOut) ==> state
            == RunnerState::Reaping(Conclusion::TimedOut) || state == RunnerState::Killing(
            Conclusion::TimedOut,
        ),
        next_state(state, event) == RunnerState::Killing(Conclusion::TimedOut) ==> state
            == RunnerState::Killing(Conclusion::TimedOut) || (state is Waiting && event
            is Elapsed),
        state is Waiting && event is Elapsed ==> next_state(state, event) == RunnerState::Killing(
            Conclusion::TimedOut,
        ),
{
}

} // verus!

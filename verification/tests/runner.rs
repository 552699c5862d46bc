use tosts::outcome::ExecutionResult;
use tosts::runner::RunnerEvent::{Elapsed, Failed, Succeeded};
use tosts::runner::{
    action, advance, conclude, Conclusion, RunnerAction, RunnerEvent, RunnerFault, RunnerState,
};

/// Drives an execution through the given events and returns the actions that
/// were called for, the last of which is the return.
fn drive(events: &[RunnerEvent]) -> Vec<RunnerAction> {
    let mut state = RunnerState::Spawning;
    let mut actions = vec![action(state)];
    for event in events {
        state = advance(state, *event);
        actions.push(action(state));
    }
    actions
}

#[test]
fn program_that_exits_in_time() {
    assert_eq!(
        drive(&[Succeeded, Succeeded, Succeeded, Succeeded]),
        vec![
            RunnerAction::Spawn,
            RunnerAction::Feed,
            RunnerAction::Wait,
            RunnerAction::Collect,
            RunnerAction::Return(Conclusion::Output),
        ]
    );
}

#[test]
fn program_that_runs_out_of_time_is_killed_and_reaped() {
    assert_eq!(
        drive(&[Succeeded, Succeeded, Elapsed, Succeeded, Succeeded]),
        vec![
            RunnerAction::Spawn,
            RunnerAction::Feed,
            RunnerAction::Wait,
            RunnerAction::Kill,
            RunnerAction::Reap,
            RunnerAction::Return(Conclusion::TimedOut),
        ]
    );
}

#[test]
fn failed_kill_is_no_error() {
    assert_eq!(
        drive(&[Succeeded, Succeeded, Elapsed, Failed, Failed]),
        vec![
            RunnerAction::Spawn,
            RunnerAction::Feed,
            RunnerAction::Wait,
            RunnerAction::Kill,
            RunnerAction::Reap,
            RunnerAction::Return(Conclusion::TimedOut),
        ]
    );
}

#[test]
fn spawn_failure_ends_the_execution_at_once() {
    assert_eq!(
        drive(&[RunnerEvent::Failed]),
        vec![RunnerAction::Spawn, RunnerAction::Return(Conclusion::Fault(RunnerFault::Spawn))]
    );
}

#[test]
fn write_failure_is_surfaced_after_cleanup() {
    assert_eq!(
        drive(&[Succeeded, Failed, Succeeded, Succeeded]),
        vec![
            RunnerAction::Spawn,
            RunnerAction::Feed,
            RunnerAction::Kill,
            RunnerAction::Reap,
            RunnerAction::Return(Conclusion::Fault(RunnerFault::Write)),
        ]
    );
}

#[test]
fn wait_failure_is_surfaced_after_cleanup() {
    assert_eq!(
        drive(&[Succeeded, Succeeded, Failed, Failed, Succeeded]),
        vec![
            RunnerAction::Spawn,
            RunnerAction::Feed,
            RunnerAction::Wait,
            RunnerAction::Kill,
            RunnerAction::Reap,
            RunnerAction::Return(Conclusion::Fault(RunnerFault::Wait)),
        ]
    );
}

#[test]
fn read_failure_is_surfaced() {
    assert_eq!(
        drive(&[Succeeded, Succeeded, Succeeded, Failed]).last(),
        Some(&RunnerAction::Return(Conclusion::Fault(RunnerFault::Read)))
    );
}

#[test]
fn only_waiting_runs_out_of_time() {
    let states = [
        RunnerState::Spawning,
        RunnerState::Feeding,
        RunnerState::Collecting,
        RunnerState::Killing(Conclusion::TimedOut),
        RunnerState::Reaping(Conclusion::Fault(RunnerFault::Write)),
        RunnerState::Done(Conclusion::Output),
    ];
    for state in states {
        assert_eq!(advance(state, RunnerEvent::Elapsed), state);
    }
    assert_eq!(
        advance(RunnerState::Waiting, RunnerEvent::Elapsed),
        RunnerState::Killing(Conclusion::TimedOut)
    );
}

#[test]
fn ended_execution_stays_ended() {
    for conclusion in [Conclusion::Output, Conclusion::TimedOut, Conclusion::Fault(RunnerFault::Read)] {
        for event in [RunnerEvent::Succeeded, RunnerEvent::Elapsed, RunnerEvent::Failed] {
            assert_eq!(advance(RunnerState::Done(conclusion), event), RunnerState::Done(conclusion));
        }
        assert_eq!(action(RunnerState::Done(conclusion)), RunnerAction::Return(conclusion));
    }
}

#[test]
fn conclusion_becomes_result() {
    match conclude(Conclusion::Output, b"25\n".to_vec()) {
        Ok(ExecutionResult::Output(bytes)) => assert_eq!(bytes, b"25\n".to_vec()),
        other => panic!("unexpected result {:?}", other),
    }
    assert!(matches!(conclude(Conclusion::TimedOut, b"partial".to_vec()), Ok(ExecutionResult::TimedOut)));
    assert!(matches!(
        conclude(Conclusion::Fault(RunnerFault::Write), Vec::new()),
        Err(RunnerFault::Write)
    ));
}

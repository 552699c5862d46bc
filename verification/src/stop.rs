//! The stop signal of a run: raised once, by the first failure.

use vstd::prelude::*;
use crate::outcome::Verdict;

verus! {

/// A failed case: its index in the run and the verdict it got.
#[derive(Debug, Clone, Copy, PartialEq, Eq, Structural)]
pub struct Failure {
    /// Index of the case, counted from 1.
    pub index: u64,
    /// The verdict on the case.
    pub verdict: Verdict,
}

/// Signal that ends a run. It is raised at most once: the first failure that
/// raises it is kept, and raising it again changes nothing.
#[derive(Debug, Clone, Copy)]
pub struct StopFlag {
    winner: Option<Failure>,
}

impl View for StopFlag {
    type V = Option<Failure>;

    /// The failure that raised the flag, if it is raised.
    closed spec fn view(&self) -> Option<Failure> {
        self.winner
    }
}

impl StopFlag {
    /// A flag that is not raised.
    pub fn new() -> (flag: StopFlag)
        ensures
            flag@ is None,
    {
        StopFlag { winner: None }
    }

    /// Tells whether the flag is raised.
    pub fn is_set(&self) -> (set: bool)
        ensures
            set == self@.is_some(),
    {
        self.winner.is_some()
    }

    /// The failure that raised the flag, if it is raised.
    pub fn winner(&self) -> (w: Option<Failure>)
        ensures
            w == self@,
    {
        self.winner
    }

    /// Raises the flag for `failure` unless it is raised already, in one step.
    /// Returns whether this call raised it.
    pub fn raise(&mut self, failure: Failure) -> (won: bool)
        ensures
            won == (old(self)@ is None),
            final(self)@ == (if won {
                Some(failure)
            } else {
                old(self)@
            }),
        no_unwind
    {
        match self.winner {
            Some(_) => false,
            None => {
                self.winner = Some(failure);
                true
            },
        }
    }
}

/// The flag after `failures` have tried to raise it, in this order.
pub open spec fn raised_by(start: Option<Failure>, failures: Seq<Failure>) -> Option<Failure>
    decreases failures.len(),
{
    if failures.len() == 0 {
        start
    } else {
        raised_by(
            if start is None {
                Some(failures[0])
            } else {
                start
            },
            failures.drop_first(),
        )
    }
}

/// However many failures try to raise a flag, it keeps the first one.
pub proof fn lemma_first_writer_wins(start: Option<Failure>, failures: Seq<Failure>)
    ensures
        start is Some ==> raised_by(start, failures) == start,
        start is None && failures.len() > 0 ==> raised_by(start, failures) == Some(failures[0]),
        start is None && failures.len() == 0 ==> raised_by(start, failures) is None,
    decreases failures.len(),
{
    if failures.len() > 0 {
        let next = if start is None {
            Some(failures[0])
        } else {
            start
        };
        lemma_first_writer_wins(next, failures.drop_first());
    }
}

} // verus!

//! Results of single executions and verdicts on single cases.

use vstd::prelude::*;

verus! {

/// Mathematical model of an [`ExecutionResult`].
pub enum ResultView {
    /// The program exited in time and wrote these bytes.
    Output(Seq<u8>),
    /// The program was still running when its time limit elapsed.
    TimedOut,
}

/// What one execution of a program produced.
#[derive(Debug)]
pub enum ExecutionResult {
    /// Everything the program wrote to its standard output.
    Output(Vec<u8>),
    /// The program did not exit within its time limit and was terminated.
    TimedOut,
}

impl View for ExecutionResult {
    type V = ResultView;

    open spec fn view(&self) -> ResultView {
        match self {
            ExecutionResult::Output(bytes) => ResultView::Output(bytes@),
            ExecutionResult::TimedOut => ResultView::TimedOut,
        }
    }
}

/// Mathematical model of a [`TestCase`].
pub struct CaseView {
    /// Index of the case, counted from 1.
    pub index: u64,
    /// The input of the case.
    pub input: Seq<u8>,
}

/// One case of a run: the input that the programs are given, and the index
/// by which the case is known.
#[derive(Debug)]
pub struct TestCase {
    /// Index of the case, counted from 1.
    pub index: u64,
    /// The input of the case.
    pub input: Vec<u8>,
}

impl View for TestCase {
    type V = CaseView;

    open spec fn view(&self) -> CaseView {
        CaseView { index: self.index, input: self.input@ }
    }
}

/// Classification of one case.
#[derive(Debug, Clone, Copy, PartialEq, Eq, Structural)]
pub enum Verdict {
    /// The outputs agree.
    Match,
    /// The outputs differ.
    Mismatch,
    /// An execution ran out of time.
    TimedOut,
}

/// Why a case failed.
#[derive(Debug, Clone, Copy, PartialEq, Eq, Structural)]
pub enum FailureCause {
    /// The output is not the expected one.
    WrongAnswer,
    /// The program did not exit within its time limit.
    TimeLimitExceeded,
}

impl FailureCause {
    /// The cause in words.
    pub open spec fn words(self) -> Seq<char> {
        match self {
            FailureCause::WrongAnswer => "wrong answer"@,
            FailureCause::TimeLimitExceeded => "time limit exceeded"@,
        }
    }

    /// The cause in words: `wrong answer` or `time limit exceeded`.
    pub fn describe(self) -> (text: &'static str)
        ensures
            text@ == self.words(),
    {
        match self {
            FailureCause::WrongAnswer => "wrong answer",
            FailureCause::TimeLimitExceeded => "time limit exceeded",
        }
    }
}

impl Verdict {
    /// Why a case with this verdict failed, if it did.
    pub open spec fn cause_of(self) -> Option<FailureCause> {
        match self {
            Verdict::Match => None,
            Verdict::Mismatch => Some(FailureCause::WrongAnswer),
            Verdict::TimedOut => Some(FailureCause::TimeLimitExceeded),
        }
    }

    /// Why a case with this verdict failed: nothing for a match, a wrong
    /// answer for a mismatch, an exceeded time limit for a timeout.
    pub fn cause(self) -> (c: Option<FailureCause>)
        ensures
            c == self.cause_of(),
            c is Some <==> self.is_failure(),
    {
        match self {
            Verdict::Match => None,
            Verdict::Mismatch => Some(FailureCause::WrongAnswer),
            Verdict::TimedOut => Some(FailureCause::TimeLimitExceeded),
        }
    }

    /// Whether this verdict ends a run.
    pub open spec fn is_failure(self) -> bool {
        self != Verdict::Match
    }

    /// Tells whether this verdict ends a run: every verdict but `Match` does.
    pub fn fails(self) -> (r: bool)
        ensures
            r == self.is_failure(),
    {
        match self {
            Verdict::Match => false,
            Verdict::Mismatch => true,
            Verdict::TimedOut => true,
        }
    }
}

} // verus!

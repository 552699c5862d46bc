//! What a run tells its user about the failure that stopped it.

use vstd::prelude::*;
use crate::naming::{artifact_name, failure_artifact_name};
use crate::orchestrator::{Disposition, Orchestrator};
use crate::outcome::{CaseView, FailureCause, TestCase, Verdict};
use crate::stop::Failure;

verus! {

/// Mathematical model of a [`FailureReport`].
pub struct ReportView {
    /// Index of the failed case.
    pub index: u64,
    /// Why the case failed.
    pub cause: FailureCause,
    /// Name of the file that keeps the input of the case.
    pub artifact: Seq<u8>,
}

/// The one failure that a run reports: which case failed, why, and where its
/// input is kept.
#[derive(Debug)]
pub struct FailureReport {
    /// Index of the failed case.
    pub index: u64,
    /// Why the case failed.
    pub cause: FailureCause,
    /// Name of the file that keeps the input of the case.
    pub artifact: Vec<u8>,
}

impl View for FailureReport {
    type V = ReportView;

    open spec fn view(&self) -> ReportView {
        ReportView { index: self.index, cause: self.cause, artifact: self.artifact@ }
    }
}

/// The report that is owed for a failure: none where the verdict is a match.
pub open spec fn report_of(failure: Failure) -> Option<ReportView> {
    match failure.verdict.cause_of() {
        Some(cause) => Some(
            ReportView { index: failure.index, cause, artifact: artifact_name(failure.index) },
        ),
        None => None,
    }
}

/// The report on a failure: its case, its cause, and the name of the file
/// under which the input of the case is to be kept. A verdict that is no
/// failure has no report.
pub fn failure_report(failure: Failure) -> (r: Option<FailureReport>)
    ensures
        r is Some <==> failure.verdict.is_failure(),
        match r {
            Some(report) => report_of(failure) == Some(report@),
            None => report_of(failure) is None,
        },
{
    match failure.verdict.cause() {
        Some(cause) => Some(
            FailureReport {
                index: failure.index,
                cause,
                artifact: failure_artifact_name(failure.index),
            },
        ),
        None => None,
    }
}

/// Mathematical model of a [`Reproduction`].
pub struct ReproductionView {
    /// The report on the failure.
    pub report: ReportView,
    /// The bytes to be written to the file that the report names.
    pub content: Seq<u8>,
}

/// What is handed back to the user of a failed run: the report on the first
/// failure, and the input of its case, to be kept under the name that the
/// report gives.
#[derive(Debug)]
pub struct Reproduction {
    /// The report on the failure.
    pub report: FailureReport,
    /// The bytes to be written to the file that the report names.
    pub content: Vec<u8>,
}

impl View for Reproduction {
    type V = ReproductionView;

    open spec fn view(&self) -> ReproductionView {
        ReproductionView { report: self.report@, content: self.content@ }
    }
}

/// What is to be kept of a case once its verdict was handed in: the report
/// on it and its input, unchanged, where it is the first failure of the run;
/// nothing otherwise.
pub open spec fn reproduction_of(answer: Disposition, case: CaseView) -> Option<ReproductionView> {
    match answer {
        Disposition::Persist(failure) => match report_of(failure) {
            Some(report) => Some(ReproductionView { report, content: case.input }),
            None => None,
        },
        _ => None,
    }
}

/// Hands in the verdict on `case` and settles what follows from it. The run
/// takes the step of [`Orchestrator::report`]. Where the case is the first
/// failure of the run, its input comes back with the report on it, to be
/// kept; in every other event nothing is to be kept.
pub fn settle(run: &mut Orchestrator, case: TestCase, verdict: Verdict) -> (r: (
    Disposition,
    Option<Reproduction>,
))
    ensures
        final(run)@.wf(),
        final(run)@ == old(run)@.report(case.index, verdict).0,
        r.0 == old(run)@.report(case.index, verdict).1,
        r.1 is Some <==> r.0 is Persist,
        match r.1 {
            Some(kept) => reproduction_of(r.0, case@) == Some(kept@),
            None => reproduction_of(r.0, case@) is None,
        },
{
    let answer = run.report(case.index, verdict);
    let kept = match answer {
        Disposition::Persist(failure) => match failure_report(failure) {
            Some(report) => Some(Reproduction { report, content: case.input }),
            None => None,
        },
        _ => None,
    };
    (answer, kept)
}

} // verus!

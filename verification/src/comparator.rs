//! Classification of a case from the results of its executions.

use vstd::prelude::*;
use crate::normalize::{is_terminator, lemma_normalized_absorbs_terminators, normalized, trimmed_len};
use crate::outcome::{ExecutionResult, ResultView, Verdict};

verus! {

/// Verdict on two executions of the same input.
///
/// A timeout on either side decides the case, whatever the other side wrote.
/// Two outputs match when they are equal byte for byte once the trailing line
/// terminators of each are removed.
pub open spec fn verdict_of(a: ResultView, b: ResultView) -> Verdict {
    match (a, b) {
        (ResultView::Output(x), ResultView::Output(y)) => if normalized(x) == normalized(y) {
            Verdict::Match
        } else {
            Verdict::Mismatch
        },
        _ => Verdict::TimedOut,
    }
}

/// Verdict on one execution against the stored expected output.
///
/// The program's output is stripped of its trailing line terminators; the
/// expected bytes are taken as they were stored, so an expected output that
/// itself ends in a line terminator is matched by no output.
pub open spec fn verdict_against(result: ResultView, expected: Seq<u8>) -> Verdict {
    match result {
        ResultView::Output(x) => if normalized(x) == expected {
            Verdict::Match
        } else {
            Verdict::Mismatch
        },
        ResultView::TimedOut => Verdict::TimedOut,
    }
}

/// Tells whether the first `n` bytes of `a` and of `b` are the same.
fn same_prefix(a: &[u8], b: &[u8], n: usize) -> (r: bool)
    requires
        n <= a.len(),
        n <= b.len(),
    ensures
        r == (a@.take(n as int) == b@.take(n as int)),
{
    let mut i: usize = 0;
    while i < n
        invariant
            i <= n,
            n <= a.len(),
            n <= b.len(),
            a@.take(i as int) == b@.take(i as int),
        decreases n - i,
    {
        if a[i] != b[i] {
            assert(a@.take(n as int)[i as int] != b@.take(n as int)[i as int]);
            return false;
        }
        assert(a@.take(i + 1) =~= a@.take(i as int).push(a@[i as int]));
        assert(b@.take(i + 1) =~= b@.take(i as int).push(b@[i as int]));
        i = i + 1;
    }
    true
}

/// Tells whether two outputs are equal up to trailing line terminators.
pub fn outputs_agree(a: &[u8], b: &[u8]) -> (r: bool)
    ensures
        r == (normalized(a@) == normalized(b@)),
{
    let n: usize = trimmed_len(a);
    let m: usize = trimmed_len(b);
    if n != m {
        assert(normalized(a@).len() != normalized(b@).len());
        return false;
    }
    same_prefix(a, b, n)
}

/// Tells whether an output, stripped of its trailing line terminators, is
/// exactly the expected output.
pub fn output_is(output: &[u8], expected: &[u8]) -> (r: bool)
    ensures
        r == (normalized(output@) == expected@),
{
    let n: usize = trimmed_len(output);
    if n != expected.len() {
        assert(normalized(output@).len() != expected@.len());
        return false;
    }
    assert(expected@.take(n as int) =~= expected@);
    same_prefix(output, expected, n)
}

/// Classifies a case from the results of running two programs on it.
pub fn compare(first: &ExecutionResult, second: &ExecutionResult) -> (v: Verdict)
    ensures
        v == verdict_of(first@, second@),
{
    match (first, second) {
        (ExecutionResult::Output(a), ExecutionResult::Output(b)) => {
            if outputs_agree(a.as_slice(), b.as_slice()) {
                Verdict::Match
            } else {
                Verdict::Mismatch
            }
        },
        _ => Verdict::TimedOut,
    }
}

/// Classifies a case from the result of running one program on it and the
/// output that was expected of it.
pub fn judge(result: &ExecutionResult, expected: &[u8]) -> (v: Verdict)
    ensures
        v == verdict_against(result@, expected@),
{
    match result {
        ExecutionResult::Output(a) => {
            if output_is(a.as_slice(), expected) {
                Verdict::Match
            } else {
                Verdict::Mismatch
            }
        },
        ExecutionResult::TimedOut => Verdict::TimedOut,
    }
}

/// Two executions that wrote the same bytes match.
pub proof fn lemma_identical_outputs_match(output: Seq<u8>)
    ensures
        verdict_of(ResultView::Output(output), ResultView::Output(output)) == Verdict::Match,
{
}

/// The verdict does not depend on the order of the two executions.
pub proof fn lemma_verdict_symmetric(a: ResultView, b: ResultView)
    ensures
        verdict_of(a, b) == verdict_of(b, a),
{
}

/// A timeout on either side gives `TimedOut`, and nothing else does.
pub proof fn lemma_timeout_takes_priority(a: ResultView, b: ResultView)
    ensures
        verdict_of(a, b) == Verdict::TimedOut <==> (a is TimedOut || b is TimedOut),
{
}

/// Appending line terminators to either output leaves the verdict unchanged.
pub proof fn lemma_trailing_terminators_ignored(x: Seq<u8>, y: Seq<u8>, tail: Seq<u8>)
    requires
        forall|i: int| 0 <= i < tail.len() ==> is_terminator(#[trigger] tail[i]),
    ensures
        verdict_of(ResultView::Output(x + tail), ResultView::Output(y)) == verdict_of(
            ResultView::Output(x),
            ResultView::Output(y),
        ),
        verdict_against(ResultView::Output(x + tail), y) == verdict_against(
            ResultView::Output(x),
            y,
        ),
{
    lemma_normalized_absorbs_terminators(x, tail);
}

} // verus!

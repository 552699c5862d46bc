//! Cases that a run writes itself: the names of their files, and what the
//! reference solution owes for each.

use vstd::prelude::*;
use crate::naming::{case_file_name, case_name, decimal, lemma_decimal_digits, DOT};
use crate::outcome::{ExecutionResult, ResultView};
use crate::pairing::{has_extension, paired_name, CasePair, PairView};

verus! {

/// Why a case could not be generated.
#[derive(Debug, Clone, Copy, PartialEq, Eq, Structural)]
pub enum GenerateError {
    /// The reference solution did not come to an end.
    ReferenceTimedOut,
}

/// The file names of the generated case `index`.
pub open spec fn generated_pair(index: u64, in_ext: Seq<u8>, out_ext: Seq<u8>) -> PairView {
    PairView { input: case_name(index, in_ext), expected: case_name(index, out_ext) }
}

/// The file names of the generated case `index`: the index in decimal with
/// the input extension for its input, and with the output extension for the
/// output of the reference solution.
pub fn generated_names(index: u64, in_ext: &[u8], out_ext: &[u8]) -> (pair: CasePair)
    ensures
        pair@ == generated_pair(index, in_ext@, out_ext@),
{
    CasePair { input: case_file_name(index, in_ext), expected: case_file_name(index, out_ext) }
}

/// The bytes to be written as the expected output of a generated case: all
/// that the reference solution wrote, as it wrote it. A reference solution
/// that timed out has given no answer, and nothing can stand in for it.
pub fn reference_output(result: ExecutionResult) -> (r: Result<Vec<u8>, GenerateError>)
    ensures
        match result@ {
            ResultView::Output(bytes) => r matches Ok(written) && written@ == bytes,
            ResultView::TimedOut => r matches Err(e) && e == GenerateError::ReferenceTimedOut,
        },
{
    match result {
        ExecutionResult::Output(bytes) => Ok(bytes),
        ExecutionResult::TimedOut => Err(GenerateError::ReferenceTimedOut),
    }
}

/// The files of a generated case are paired when they are read back: the
/// input has the input extension, and the expected output that belongs to it
/// is the file that was written for the same case.
pub proof fn lemma_generated_cases_pair(index: u64, in_ext: Seq<u8>, out_ext: Seq<u8>)
    ensures
        has_extension(generated_pair(index, in_ext, out_ext).input, in_ext),
        paired_name(generated_pair(index, in_ext, out_ext).input, in_ext, out_ext)
            == generated_pair(index, in_ext, out_ext).expected,
{
    let digits = decimal(index as nat);
    let name = case_name(index, in_ext);
    lemma_decimal_digits(index as nat);
    assert(name.len() == digits.len() + 1 + in_ext.len());
    assert(name[digits.len() as int] == DOT);
    assert(name.skip(name.len() - in_ext.len()) =~= in_ext);
    assert(name.take(name.len() - in_ext.len() - 1) =~= digits);
}

} // verus!

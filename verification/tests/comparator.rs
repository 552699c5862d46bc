use tosts::comparator::{compare, judge, output_is, outputs_agree};
use tosts::outcome::{ExecutionResult, FailureCause, Verdict};

fn output(text: &str) -> ExecutionResult {
    ExecutionResult::Output(text.as_bytes().to_vec())
}

#[test]
fn trailing_newline_is_ignored() {
    assert_eq!(compare(&output("42\n"), &output("42")), Verdict::Match);
    assert_eq!(compare(&output("42"), &output("42\n")), Verdict::Match);
}

#[test]
fn different_answers_mismatch() {
    assert_eq!(compare(&output("42\n"), &output("43\n")), Verdict::Mismatch);
}

#[test]
fn identical_outputs_match() {
    for text in ["", "\n", "1 2 3\n", "a\nb\n", "x\r\n", "  padded  "] {
        assert_eq!(compare(&output(text), &output(text)), Verdict::Match);
    }
}

#[test]
fn carriage_returns_and_newlines_are_stripped_together() {
    assert_eq!(compare(&output("7\r\n\r\n"), &output("7")), Verdict::Match);
    assert_eq!(compare(&output("7\n\r\n"), &output("7\r")), Verdict::Match);
    assert_eq!(compare(&output("\n\n"), &output("")), Verdict::Match);
}

#[test]
fn other_whitespace_is_kept() {
    assert_eq!(compare(&output("42 \n"), &output("42\n")), Verdict::Mismatch);
    assert_eq!(compare(&output("42\t"), &output("42")), Verdict::Mismatch);
    assert_eq!(compare(&output(" 42"), &output("42")), Verdict::Mismatch);
    assert_eq!(compare(&output("\n42"), &output("42")), Verdict::Mismatch);
    assert_eq!(compare(&output("4\n2"), &output("42")), Verdict::Mismatch);
}

#[test]
fn timeout_on_either_side_decides() {
    assert_eq!(compare(&ExecutionResult::TimedOut, &output("1")), Verdict::TimedOut);
    assert_eq!(compare(&output("1"), &ExecutionResult::TimedOut), Verdict::TimedOut);
    assert_eq!(
        compare(&ExecutionResult::TimedOut, &ExecutionResult::TimedOut),
        Verdict::TimedOut
    );
}

#[test]
fn verdict_does_not_depend_on_side() {
    let results = [output("1\n"), output("1"), output("2"), ExecutionResult::TimedOut];
    for a in &results {
        for b in &results {
            assert_eq!(compare(a, b), compare(b, a));
        }
    }
}

#[test]
fn judge_strips_only_the_program_output() {
    assert_eq!(judge(&output("25\n"), b"25"), Verdict::Match);
    assert_eq!(judge(&output("25"), b"25"), Verdict::Match);
    assert_eq!(judge(&output("25\r\n"), b"25"), Verdict::Match);
    assert_eq!(judge(&output("26\n"), b"25"), Verdict::Mismatch);
    assert_eq!(judge(&output("25"), b"25\n"), Verdict::Mismatch);
    assert_eq!(judge(&output(""), b""), Verdict::Match);
    assert_eq!(judge(&ExecutionResult::TimedOut, b"25"), Verdict::TimedOut);
}

#[test]
fn judging_twice_gives_the_same_verdict() {
    let cases = [
        (output("25\n"), b"25".to_vec()),
        (output("26\n"), b"25".to_vec()),
        (ExecutionResult::TimedOut, b"25".to_vec()),
    ];
    for (result, expected) in &cases {
        assert_eq!(judge(result, expected), judge(result, expected));
    }
}

#[test]
fn agreement_of_raw_outputs() {
    assert!(outputs_agree(b"abc\n", b"abc"));
    assert!(!outputs_agree(b"abc", b"abd"));
    assert!(!outputs_agree(b"abc", b"ab"));
    assert!(output_is(b"abc\n\n", b"abc"));
    assert!(!output_is(b"abc", b"abc\n"));
    assert!(output_is(b"", b""));
    assert!(outputs_agree(b"\r\n", b""));
}

#[test]
fn causes_of_failure() {
    assert_eq!(Verdict::Match.cause(), None);
    assert_eq!(Verdict::Mismatch.cause(), Some(FailureCause::WrongAnswer));
    assert_eq!(Verdict::TimedOut.cause(), Some(FailureCause::TimeLimitExceeded));
    assert_eq!(FailureCause::WrongAnswer.describe(), "wrong answer");
    assert_eq!(FailureCause::TimeLimitExceeded.describe(), "time limit exceeded");
    assert!(!Verdict::Match.fails());
    assert!(Verdict::Mismatch.fails());
    assert!(Verdict::TimedOut.fails());
}

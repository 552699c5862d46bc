use tosts::bytes::{append_bytes, copy_bytes, same_bytes};
use tosts::config::{time_limit_millis, ConfigError, RunConfig, UNBOUNDED_MILLIS};
use tosts::naming::{case_file_name, decimal_digits, failure_artifact_name};
use tosts::outcome::{FailureCause, Verdict};
use tosts::report::failure_report;
use tosts::stop::Failure;

#[test]
fn decimal_digits_of_numbers() {
    assert_eq!(decimal_digits(0), b"0".to_vec());
    assert_eq!(decimal_digits(7), b"7".to_vec());
    assert_eq!(decimal_digits(10), b"10".to_vec());
    assert_eq!(decimal_digits(409), b"409".to_vec());
    assert_eq!(decimal_digits(1_000_000), b"1000000".to_vec());
    assert_eq!(decimal_digits(u64::MAX), b"18446744073709551615".to_vec());
}

#[test]
fn decimal_digits_agree_with_formatting() {
    for n in (0u64..3000).chain([u64::MAX - 1, 1 << 32, 99_999, 100_000]) {
        assert_eq!(decimal_digits(n), n.to_string().into_bytes());
    }
}

#[test]
fn artifact_is_named_by_case_index() {
    assert_eq!(failure_artifact_name(1), b"fail_1.in".to_vec());
    assert_eq!(failure_artifact_name(0), b"fail_0.in".to_vec());
    assert_eq!(failure_artifact_name(250), b"fail_250.in".to_vec());
    assert_eq!(failure_artifact_name(u64::MAX), b"fail_18446744073709551615.in".to_vec());
}

#[test]
fn artifacts_of_different_cases_differ() {
    let names: Vec<Vec<u8>> = (0u64..200).map(failure_artifact_name).collect();
    for i in 0..names.len() {
        for j in 0..i {
            assert_ne!(names[i], names[j]);
        }
    }
}

#[test]
fn case_files_are_named_by_index_and_extension() {
    assert_eq!(case_file_name(3, b"in"), b"3.in".to_vec());
    assert_eq!(case_file_name(42, b"out"), b"42.out".to_vec());
    assert_eq!(case_file_name(0, b""), b"0.".to_vec());
}

#[test]
fn report_names_case_cause_and_artifact() {
    let report = failure_report(Failure { index: 12, verdict: Verdict::TimedOut }).unwrap();
    assert_eq!(report.index, 12);
    assert_eq!(report.cause, FailureCause::TimeLimitExceeded);
    assert_eq!(report.artifact, b"fail_12.in".to_vec());
    let report = failure_report(Failure { index: 3, verdict: Verdict::Mismatch }).unwrap();
    assert_eq!(report.cause, FailureCause::WrongAnswer);
    assert_eq!(report.artifact, b"fail_3.in".to_vec());
    assert!(failure_report(Failure { index: 3, verdict: Verdict::Match }).is_none());
}

#[test]
fn time_limit_is_ten_milliseconds_per_centisecond() {
    assert_eq!(time_limit_millis(0), Some(0));
    assert_eq!(time_limit_millis(1), Some(10));
    assert_eq!(time_limit_millis(100), Some(1000));
    assert_eq!(time_limit_millis(250), Some(2500));
    assert_eq!(time_limit_millis(u64::MAX / 10), Some(u64::MAX / 10 * 10));
    assert_eq!(time_limit_millis(u64::MAX / 10 + 1), None);
    assert_eq!(time_limit_millis(u64::MAX), None);
}

#[test]
fn config_keeps_its_settings() {
    let config = RunConfig::new(150, 4, 20, b"in", b"out").unwrap();
    assert_eq!(config.time_limit_millis(), 1500);
    assert_eq!(config.parallelism(), 4);
    assert_eq!(config.cases(), 20);
    assert_eq!(config.input_ext(), b"in");
    assert_eq!(config.output_ext(), b"out");
}

#[test]
fn config_refuses_what_cannot_run() {
    assert_eq!(RunConfig::new(u64::MAX, 4, 20, b"in", b"out").err(), Some(ConfigError::TimeLimitTooLong));
    assert_eq!(RunConfig::new(100, 0, 20, b"in", b"out").err(), Some(ConfigError::NoWorkers));
    assert_eq!(RunConfig::new(u64::MAX, 0, 20, b"in", b"out").err(), Some(ConfigError::TimeLimitTooLong));
    assert!(RunConfig::new(0, 1, 0, b"", b"").is_ok());
}

#[test]
fn unbounded_limit_is_the_longest() {
    assert_eq!(UNBOUNDED_MILLIS, u64::MAX);
}

#[test]
fn byte_helpers() {
    assert!(same_bytes(b"abc", b"abc"));
    assert!(same_bytes(b"", b""));
    assert!(!same_bytes(b"abc", b"abd"));
    assert!(!same_bytes(b"abc", b"ab"));
    let mut out = b"ab".to_vec();
    append_bytes(&mut out, b"cd");
    append_bytes(&mut out, b"");
    assert_eq!(out, b"abcd".to_vec());
    assert_eq!(copy_bytes(b"xyz"), b"xyz".to_vec());
    assert_eq!(copy_bytes(b""), Vec::<u8>::new());
}

use tosts::generate::{generated_names, reference_output, GenerateError};
use tosts::order::precedes;
use tosts::outcome::ExecutionResult;
use tosts::pairing::{
    contains_name, enumerate_inputs, expected_name, matches_extension, pair_cases, PairingError,
};

fn listing(names: &[&str]) -> Vec<Vec<u8>> {
    names.iter().map(|n| n.as_bytes().to_vec()).collect()
}

fn pairs_of(inputs: &[&str], outputs: &[&str]) -> Result<Vec<(String, String)>, String> {
    match pair_cases(&listing(inputs), &listing(outputs), b"in", b"out") {
        Ok(pairs) => Ok(pairs
            .into_iter()
            .map(|p| (String::from_utf8(p.input).unwrap(), String::from_utf8(p.expected).unwrap()))
            .collect()),
        Err(PairingError::MissingExpected(name)) => Err(String::from_utf8(name).unwrap()),
    }
}

#[test]
fn pairs_single_case() {
    assert_eq!(pairs_of(&["3.in"], &["3.out"]), Ok(vec![("3.in".to_string(), "3.out".to_string())]));
}

#[test]
fn pairing_ignores_listing_order() {
    let expected = Ok(vec![
        ("1.in".to_string(), "1.out".to_string()),
        ("2.in".to_string(), "2.out".to_string()),
        ("3.in".to_string(), "3.out".to_string()),
    ]);
    assert_eq!(pairs_of(&["3.in", "1.in", "2.in"], &["2.out", "3.out", "1.out"]), expected);
    assert_eq!(pairs_of(&["1.in", "2.in", "3.in"], &["1.out", "2.out", "3.out"]), expected);
    assert_eq!(pairs_of(&["2.in", "3.in", "1.in"], &["3.out", "1.out", "2.out"]), expected);
}

#[test]
fn enumeration_is_lexicographic_by_bytes() {
    let cases = enumerate_inputs(&listing(&["10.in", "9.in", "1.in", "b.in", "B.in", "a.in"]), b"in");
    assert_eq!(cases, listing(&["1.in", "10.in", "9.in", "B.in", "a.in", "b.in"]));
}

#[test]
fn other_files_are_not_cases() {
    let cases = enumerate_inputs(
        &listing(&["notes.txt", "1.in", "2.out", ".in", "in", "3.inn", "4.in.bak", "5in", "x.y.in"]),
        b"in",
    );
    assert_eq!(cases, listing(&["1.in", "x.y.in"]));
}

#[test]
fn empty_listing_has_no_cases() {
    assert_eq!(pairs_of(&[], &[]), Ok(vec![]));
    assert_eq!(pairs_of(&["readme"], &["1.out"]), Ok(vec![]));
}

#[test]
fn missing_expected_output_is_an_error() {
    assert_eq!(pairs_of(&["3.in"], &[]), Err("3.out".to_string()));
    assert_eq!(pairs_of(&["3.in"], &["3.in", "4.out", "3.ou"]), Err("3.out".to_string()));
}

#[test]
fn first_missing_expected_output_is_named() {
    assert_eq!(
        pairs_of(&["c.in", "a.in", "b.in", "d.in"], &["a.out", "c.out"]),
        Err("b.out".to_string())
    );
    assert_eq!(
        pairs_of(&["d.in", "c.in", "b.in", "a.in"], &["c.out", "a.out"]),
        Err("b.out".to_string())
    );
}

#[test]
fn extension_needs_a_stem_and_a_dot() {
    assert!(matches_extension(b"3.in", b"in"));
    assert!(matches_extension(b"a.b.in", b"in"));
    assert!(matches_extension(b"a.", b""));
    assert!(!matches_extension(b".in", b"in"));
    assert!(!matches_extension(b"in", b"in"));
    assert!(!matches_extension(b"3in", b"in"));
    assert!(!matches_extension(b"3.out", b"in"));
    assert!(!matches_extension(b"3.IN", b"in"));
    assert!(!matches_extension(b"", b"in"));
    assert!(!matches_extension(b"a", b""));
}

#[test]
fn expected_name_replaces_the_extension() {
    assert_eq!(expected_name(b"3.in", b"in", b"out"), Some(b"3.out".to_vec()));
    assert_eq!(expected_name(b"a.b.in", b"in", b"ans"), Some(b"a.b.ans".to_vec()));
    assert_eq!(expected_name(b"case.txt", b"txt", b""), Some(b"case.".to_vec()));
    assert_eq!(expected_name(b"3.out", b"in", b"out"), None);
    assert_eq!(expected_name(b".in", b"in", b"out"), None);
}

#[test]
fn lexicographic_order_of_names() {
    assert!(precedes(b"", b""));
    assert!(precedes(b"", b"a"));
    assert!(!precedes(b"a", b""));
    assert!(precedes(b"a", b"a"));
    assert!(precedes(b"a", b"ab"));
    assert!(!precedes(b"ab", b"a"));
    assert!(precedes(b"ab", b"b"));
    assert!(!precedes(b"b", b"ab"));
    assert!(precedes(b"10", b"9"));
    assert!(precedes(b"B", b"a"));
    assert!(precedes(&[127], &[128]));
    assert!(!precedes(&[255], &[0, 1]));
}

#[test]
fn equal_names_are_all_kept() {
    let cases = enumerate_inputs(&listing(&["b.in", "a.in", "b.in", "c.in", "a.in"]), b"in");
    assert_eq!(cases, listing(&["a.in", "a.in", "b.in", "b.in", "c.in"]));
}

#[test]
fn names_are_found_in_listings() {
    let names = listing(&["1.out", "2.out"]);
    assert!(contains_name(&names, b"2.out"));
    assert!(!contains_name(&names, b"3.out"));
    assert!(!contains_name(&names, b"2.ou"));
    assert!(!contains_name(&Vec::new(), b""));
}

#[test]
fn generated_cases_are_paired_when_read_back() {
    let mut inputs = Vec::new();
    let mut outputs = Vec::new();
    for index in [12u64, 1, 7] {
        let pair = generated_names(index, b"in", b"out");
        inputs.push(pair.input);
        outputs.push(pair.expected);
    }
    assert_eq!(inputs, listing(&["12.in", "1.in", "7.in"]));
    assert_eq!(outputs, listing(&["12.out", "1.out", "7.out"]));
    let pairs = pair_cases(&inputs, &outputs, b"in", b"out").unwrap();
    let found: Vec<(Vec<u8>, Vec<u8>)> = pairs.into_iter().map(|p| (p.input, p.expected)).collect();
    assert_eq!(
        found,
        vec![
            (b"1.in".to_vec(), b"1.out".to_vec()),
            (b"12.in".to_vec(), b"12.out".to_vec()),
            (b"7.in".to_vec(), b"7.out".to_vec()),
        ]
    );
}

#[test]
fn reference_output_is_written_as_it_is() {
    assert_eq!(
        reference_output(ExecutionResult::Output(b"25\n".to_vec())),
        Ok(b"25\n".to_vec())
    );
    assert_eq!(reference_output(ExecutionResult::Output(Vec::new())), Ok(Vec::new()));
    assert_eq!(
        reference_output(ExecutionResult::TimedOut),
        Err(GenerateError::ReferenceTimedOut)
    );
}

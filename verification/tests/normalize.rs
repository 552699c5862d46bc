use tosts::normalize::{strip_trailing_terminators, terminator, trimmed_len};

#[test]
fn strips_trailing_terminators_only() {
    assert_eq!(strip_trailing_terminators(b"42\n"), b"42".to_vec());
    assert_eq!(strip_trailing_terminators(b"42\r\n"), b"42".to_vec());
    assert_eq!(strip_trailing_terminators(b"42\n\n\r"), b"42".to_vec());
    assert_eq!(strip_trailing_terminators(b"42"), b"42".to_vec());
    assert_eq!(strip_trailing_terminators(b"4\n2\n"), b"4\n2".to_vec());
    assert_eq!(strip_trailing_terminators(b"\n42\n"), b"\n42".to_vec());
    assert_eq!(strip_trailing_terminators(b"42 \n"), b"42 ".to_vec());
    assert_eq!(strip_trailing_terminators(b"42\t\n"), b"42\t".to_vec());
}

#[test]
fn strips_all_of_a_run_of_terminators() {
    assert_eq!(strip_trailing_terminators(b""), Vec::<u8>::new());
    assert_eq!(strip_trailing_terminators(b"\n"), Vec::<u8>::new());
    assert_eq!(strip_trailing_terminators(b"\r\n\r\n"), Vec::<u8>::new());
}

#[test]
fn trimmed_length() {
    assert_eq!(trimmed_len(b""), 0);
    assert_eq!(trimmed_len(b"\n"), 0);
    assert_eq!(trimmed_len(b"a"), 1);
    assert_eq!(trimmed_len(b"a\n"), 1);
    assert_eq!(trimmed_len(b"a\nb\r\n"), 3);
}

#[test]
fn stripping_twice_is_stripping_once() {
    for text in [&b""[..], b"\n", b"a\n\n", b"a\r\nb\r\n", b"abc"] {
        let once = strip_trailing_terminators(text);
        assert_eq!(strip_trailing_terminators(&once), once);
    }
}

#[test]
fn only_line_feed_and_carriage_return_terminate() {
    for b in 0u8..=255 {
        assert_eq!(terminator(b), b == b'\n' || b == b'\r');
    }
}

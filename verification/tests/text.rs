use opencode_hooks::text::{contains_bytes, equal_bytes};

#[test]
fn a_run_of_bytes_is_found_wherever_it_stands() {
    assert!(contains_bytes(b"abc", b""));
    assert!(contains_bytes(b"", b""));
    assert!(contains_bytes(b"abc", b"abc"));
    assert!(contains_bytes(b"aabc", b"abc"));
    assert!(contains_bytes(b"abcab", b"ab"));
    assert!(!contains_bytes(b"ab", b"abc"));
    assert!(!contains_bytes(b"acbc", b"abc"));
}

#[test]
fn runs_of_bytes_are_compared_whole() {
    assert!(equal_bytes(b"", b""));
    assert!(equal_bytes(b"ab", b"ab"));
    assert!(!equal_bytes(b"ab", b"abc"));
    assert!(!equal_bytes(b"ab", b"ac"));
}

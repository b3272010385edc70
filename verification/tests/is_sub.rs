use repo_check::issues::is_sub;

#[test]
fn test_is_sub() {
    // Should be true
    assert!(is_sub(b"Hello, world!", b"Hello"));
    assert!(is_sub(b"Hello, world!", b"Hello, world!"));
    assert!(is_sub(b"Hello, world!", b"ello"));
    assert!(is_sub(b"Hello, world!", b"llo, wor"));
    assert!(is_sub(b"Hello, world!", b"world!"));

    // Should be false
    assert!(!is_sub(b"Hello, world!", b"other"));
    assert!(!is_sub(b"Hello, world!", b"Hello, world! with more"));
    assert!(!is_sub(b"Hello, world!", b"Hello,  world!"));
    assert!(!is_sub(b"Hello, world!", b" Hello, world!"));
}

#[test]
fn test_is_sub_empty_needle() {
    assert!(is_sub(b"abc", b""));
    assert!(is_sub(b"", b""));
}

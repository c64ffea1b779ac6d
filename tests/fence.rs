use hl_inject::fence::{is_rust_fence, ws_len};

#[test]
fn fence_tags() {
    assert!(is_rust_fence(b""));
    assert!(is_rust_fence(b"rust"));
    assert!(is_rust_fence(b" rust "));
    assert!(!is_rust_fence(b"text"));
    assert!(is_rust_fence(b"ignore"));
    assert!(is_rust_fence(b"no_run"));
    assert!(is_rust_fence(b"should_panic"));
    assert!(is_rust_fence(b"rust,ignore"));
    assert!(!is_rust_fence(b"text,ignore"));
    assert!(is_rust_fence(b"text,rust"));
    assert!(is_rust_fence(b"compile_fail"));
    assert!(is_rust_fence(b"edition2018"));
    assert!(is_rust_fence(b"E0123"));
    assert!(is_rust_fence(b"E+123"));
    assert!(!is_rust_fence(b"Eabcd"));
    assert!(!is_rust_fence(b"python"));
    assert!(is_rust_fence("\u{3000}rust\t".as_bytes()));
}

#[test]
fn whitespace_lengths() {
    assert_eq!(ws_len(b" x", 0), 1);
    assert_eq!(ws_len(b"x", 0), 0);
    assert_eq!(ws_len("\u{a0}".as_bytes(), 0), 2);
    assert_eq!(ws_len("\u{2003}".as_bytes(), 0), 3);
    assert_eq!(ws_len("\u{00e9}".as_bytes(), 0), 0);
    assert_eq!(ws_len(b"", 0), 0);
}

use srep::paths::{allowed_dir, ends_with_exec};

#[test]
fn version_control_and_vendor_dirs_are_excluded() {
    assert!(!allowed_dir(b"repo/.git"));
    assert!(!allowed_dir(b"repo/vendor"));
    assert!(!allowed_dir(b"deploy/var/cache"));
}

#[test]
fn ordinary_dirs_are_allowed() {
    assert!(allowed_dir(b"repo/src"));
    assert!(allowed_dir(b"repo/.github"));
    assert!(allowed_dir(b"repo/vendors"));
    assert!(allowed_dir(b""));
}

#[test]
fn suffix_check_is_exact() {
    assert!(ends_with_exec(b"abc/def", b"def"));
    assert!(ends_with_exec(b"abc", b""));
    assert!(!ends_with_exec(b"abc", b"abcd"));
    assert!(!ends_with_exec(b"abd", b"bc"));
}

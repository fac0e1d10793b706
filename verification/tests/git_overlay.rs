//! Tests for the git overlay where no repository setup is needed.
use fancy_tree::git::Git;
use fancy_tree::git::root_key_of;

#[test]
fn no_repository_is_not_an_error() {
    // Discovery outside any repository reports the not-found case as a
    // missing overlay, not as an error.
    let git = Git::new("/").unwrap();
    assert!(git.is_none());
}

#[test]
fn root_key_normalization() {
    assert_eq!(Some(String::new()), root_key_of("/repo", "/repo", '/'));
    assert_eq!(Some(String::from("sub")), root_key_of("/repo/sub", "/repo", '/'));
    assert_eq!(
        Some(String::from("sub/dir")),
        root_key_of("/repo/sub/dir", "/repo", '/'),
    );
    // A working tree root given with a trailing separator still strips on
    // the component boundary.
    assert_eq!(Some(String::from("x")), root_key_of("/repo/x", "/repo/", '/'));
    // A sibling whose name merely extends the root is not under it.
    assert_eq!(None, root_key_of("/repository", "/repo", '/'));
    assert_eq!(None, root_key_of("/elsewhere/x", "/repo", '/'));
}

#[test]
fn root_key_maps_platform_separators() {
    assert_eq!(
        Some(String::from("a/b")),
        root_key_of("C:\\repo\\a\\b", "C:\\repo", '\\'),
    );
}

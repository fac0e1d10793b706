//! Tests for splitting names at their double extension.
use fancy_tree::ext::double_extension;

#[test]
fn test_double_extension() {
    assert_eq!(None, double_extension("foo"));
    assert_eq!(None, double_extension("foo.tar"));
    assert_eq!(
        Some((String::from("tar"), String::from("gz"))),
        double_extension("foo.tar.gz"),
    );
    assert_eq!(
        Some((String::from("tar"), String::from("gz"))),
        double_extension("foo.sh.tar.gz"),
    );
}

#[test]
fn leading_dot_is_no_extension() {
    assert_eq!(None, double_extension(".env"));
    assert_eq!(None, double_extension(".tar.gz"));
}

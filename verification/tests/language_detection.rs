//! Tests for content-based language detection through the real classifier.
use fancy_tree::attributes::FileAttributes;

#[test]
fn rust_file_gets_rust_glyph_and_color() {
    let content: Vec<u8> = b"fn main() {}\n".to_vec();
    let attrs = FileAttributes::new("main.rs", &content, false, false);
    let language = attrs.language.expect("Rust should be detected");
    assert_eq!(Some(String::from("\u{e7a8}")), language.glyph);
    assert_eq!(Some((221, 53, 21)), language.rgb);
}

#[test]
fn unknown_file_detects_nothing_useful() {
    let content: Vec<u8> = Vec::new();
    let attrs = FileAttributes::new("mystery.zzz-unknown", &content, true, true);
    assert!(attrs.hidden);
    assert!(attrs.executable);
}

//! A library that renders a directory hierarchy as an annotated, indented
//! text tree: each entry gets an optional version-control status marker, an
//! icon, and a color, and the hierarchy can be depth-limited, filtered, and
//! sorted according to pluggable policy.
pub mod attributes;
pub mod color;
pub mod colors;
pub mod config;
pub mod ext;
pub mod git;
pub mod globbing;
pub mod icons;
pub mod language;
pub mod policy;
pub mod sorting;
pub mod text;
pub mod tree;

pub use tree::Tree;

//! Tests for the traversal and render engine.
use fancy_tree::attributes::Attributes;
use fancy_tree::attributes::DirectoryAttributes;
use fancy_tree::attributes::FileAttributes;
use fancy_tree::attributes::SymlinkAttributes;
use fancy_tree::sorting::Directories;
use fancy_tree::tree::Charset;
use fancy_tree::color::Color;
use fancy_tree::color::ColorChoice;
use fancy_tree::policy::Outcome;
use fancy_tree::policy::Overrides;
use fancy_tree::git::Status;
use fancy_tree::language::Language;
use fancy_tree::sorting::Method;
use fancy_tree::sorting::Sorting;
use fancy_tree::tree::Builder;
use fancy_tree::tree::Entry;

fn file(name: &str) -> Entry {
    Entry {
        name: String::from(name),
        attributes: Some(Attributes::File(FileAttributes {
            hidden: false,
            executable: false,
            language: None,
        })),
        children: Vec::new(),
    }
}

fn dir(name: &str, children: Vec<Entry>) -> Entry {
    Entry {
        name: String::from(name),
        attributes: Some(Attributes::Directory(DirectoryAttributes { hidden: false })),
        children,
    }
}

const DIR_ICON: &str = "\u{f024b}";
const FILE_ICON: &str = "\u{f0214}";

#[test]
fn end_to_end_default_policy() {
    // A directory holding `a.txt`, `B/` and `.hidden`: the hidden entry
    // never appears, and naive ascending order puts `B` before `a.txt`.
    let root = dir(".", vec![file("a.txt"), dir("B", Vec::new()), file(".hidden")]);
    let tree = Builder::new(ColorChoice::Never, false).build();
    let (out, _) = tree.write_default(&root);
    let expected = format!(
        "{DIR_ICON} .\n- {DIR_ICON} B\n- {FILE_ICON} a.txt\n"
    );
    assert_eq!(expected, out);
}

#[test]
fn rendering_twice_is_byte_identical() {
    let root = dir(
        ".",
        vec![file("one.txt"), dir("sub", vec![file("inner.txt")]), file(".skipme")],
    );
    let tree = Builder::new(ColorChoice::Never, false).build();
    let (first, _) = tree.write_default(&root);
    let (second, _) = tree.write_default(&root);
    assert_eq!(first, second);
}

#[test]
fn depth_limit_prunes_grandchildren() {
    let root = dir(
        ".",
        vec![dir("sub", vec![file("deep.txt"), dir("subsub", vec![file("deeper.txt")])])],
    );
    let tree = Builder::new(ColorChoice::Never, false).max_level(1).build();
    let (out, _) = tree.write_default(&root);
    assert!(out.contains("sub"));
    assert!(!out.contains("deep.txt"));
    assert!(!out.contains("deeper.txt"));
    let unlimited = Builder::new(ColorChoice::Never, false).build();
    let (full, _) = unlimited.write_default(&root);
    assert!(full.contains("deep.txt"));
    assert!(full.contains("deeper.txt"));
}

#[test]
fn indentation_grows_with_depth() {
    let root = dir("top", vec![dir("a", vec![file("b.txt")])]);
    let tree = Builder::new(ColorChoice::Never, false).build();
    let (out, _) = tree.write_default(&root);
    let expected = format!(
        "{DIR_ICON} top\n- {DIR_ICON} a\n  - {FILE_ICON} b.txt\n"
    );
    assert_eq!(expected, out);
}

/// An icon override that always fails.
struct FailingIcon;

impl Overrides for FailingIcon {
    fn skip(&self, _name: &str, _attributes: &Option<Attributes>, _default: bool) -> Outcome<bool> {
        Outcome::Absent
    }

    fn icon(&self, _name: &str, _attributes: &Option<Attributes>, _default_icon: &str) -> Outcome<
        String,
    > {
        Outcome::Failed
    }

    fn color(
        &self,
        _name: &str,
        _attributes: &Option<Attributes>,
        _default_color: Option<Color>,
    ) -> Outcome<Color> {
        Outcome::Absent
    }

    fn tracked_status_color(&self, _status: Status, _default_color: Option<Color>) -> Outcome<
        Color,
    > {
        Outcome::Absent
    }

    fn untracked_status_color(&self, _status: Status, _default_color: Option<Color>) -> Outcome<
        Color,
    > {
        Outcome::Absent
    }
}

#[test]
fn failing_icon_override_matches_defaults() {
    let root = dir(".", vec![file("a.txt"), dir("B", Vec::new())]);
    let tree = Builder::new(ColorChoice::Never, false).build();
    let (with_default, _) = tree.write_default(&root);
    let (with_failing, _) = tree.write(&root, &FailingIcon);
    assert_eq!(with_default, with_failing);
}

/// An override that replaces every icon and clears every color.
struct LoudIcon;

impl Overrides for LoudIcon {
    fn skip(&self, name: &str, _attributes: &Option<Attributes>, default: bool) -> Outcome<bool> {
        if name == "keep-me-hidden" {
            Outcome::Value(false)
        } else {
            Outcome::Value(default)
        }
    }

    fn icon(&self, _name: &str, _attributes: &Option<Attributes>, _default_icon: &str) -> Outcome<
        String,
    > {
        Outcome::Value(String::from("*"))
    }

    fn color(
        &self,
        _name: &str,
        _attributes: &Option<Attributes>,
        _default_color: Option<Color>,
    ) -> Outcome<Color> {
        Outcome::Empty
    }

    fn tracked_status_color(&self, _status: Status, _default_color: Option<Color>) -> Outcome<
        Color,
    > {
        Outcome::Absent
    }

    fn untracked_status_color(&self, _status: Status, _default_color: Option<Color>) -> Outcome<
        Color,
    > {
        Outcome::Absent
    }
}

#[test]
fn icon_override_replaces_icons_and_skip_can_force_include() {
    let root = dir(".", vec![file(".keep-me-hidden-not"), file("keep-me-hidden")]);
    let tree = Builder::new(ColorChoice::Never, false).build();
    let (out, _) = tree.write(&root, &LoudIcon);
    assert_eq!("* .\n- * keep-me-hidden\n", out);
}

#[test]
fn unreadable_root_renders_bare_path() {
    // No attributes: the literal requested path, no decoration at all.
    let root = Entry { name: String::from("./such/path"), attributes: None, children: Vec::new() };
    let tree = Builder::new(ColorChoice::Always, false).build();
    let (out, _) = tree.write_default(&root);
    assert_eq!("./such/path\n", out);
}

#[test]
fn unreadable_child_renders_bare_name() {
    // An unclassified child keeps its indentation but carries no icon,
    // color or padding.
    let broken = Entry { name: String::from("broken"), attributes: None, children: Vec::new() };
    let root = dir(".", vec![broken]);
    let tree = Builder::new(ColorChoice::Never, false).build();
    let (out, _) = tree.write_default(&root);
    let expected = format!("{DIR_ICON} .\n- broken\n");
    assert_eq!(expected, out);
}

#[test]
fn colorized_directory_line_uses_blue() {
    let root = dir("top", Vec::new());
    let tree = Builder::new(ColorChoice::Always, false).build();
    let (out, _) = tree.write_default(&root);
    let expected = format!("\u{1b}[34m{DIR_ICON} top\u{1b}[0m\n");
    assert_eq!(expected, out);
}

#[test]
fn executable_file_renders_green_run_icon() {
    let root = Entry {
        name: String::from("tool"),
        attributes: Some(Attributes::File(FileAttributes {
            hidden: false,
            executable: true,
            language: None,
        })),
        children: Vec::new(),
    };
    let tree = Builder::new(ColorChoice::Always, false).build();
    let (out, _) = tree.write_default(&root);
    let expected = format!("\u{1b}[32m\u{f070e} tool\u{1b}[0m\n");
    assert_eq!(expected, out);
}

#[test]
fn language_rgb_color_is_escaped_decimal() {
    let root = Entry {
        name: String::from("main.zz"),
        attributes: Some(Attributes::File(FileAttributes {
            hidden: false,
            executable: false,
            language: Some(Language {
                glyph: Some(String::from("Z")),
                rgb: Some((221, 53, 21)),
            }),
        })),
        children: Vec::new(),
    };
    let tree = Builder::new(ColorChoice::Always, false).build();
    let (out, _) = tree.write_default(&root);
    let expected = "\u{1b}[38;2;221;53;21mZ main.zz\u{1b}[0m\n";
    assert_eq!(expected, out);
}

#[test]
fn natural_sorting_orders_children() {
    let root = dir(
        ".",
        vec![file("notes-10.txt"), file("notes-2.txt")],
    );
    let mut sorting = Sorting::default();
    sorting.method = Method::Natural;
    let tree = Builder::new(ColorChoice::Never, false).sorting(sorting).build();
    let (out, _) = tree.write_default(&root);
    let expected = format!(
        "{DIR_ICON} .\n- {FILE_ICON} notes-2.txt\n- {FILE_ICON} notes-10.txt\n"
    );
    assert_eq!(expected, out);
}

#[test]
fn custom_charset_shapes_indentation() {
    let root = dir("top", vec![dir("a", vec![file("b.txt")])]);
    let charset = Charset { depth: String::from("> "), breadth: String::from("| ") };
    let tree = Builder::new(ColorChoice::Never, false).charset(charset).build();
    let (out, _) = tree.write_default(&root);
    let expected = format!(
        "{DIR_ICON} top\n> {DIR_ICON} a\n| > {FILE_ICON} b.txt\n"
    );
    assert_eq!(expected, out);
}

#[test]
fn directories_first_policy_reorders_children() {
    let root = dir(".", vec![file("aaa"), dir("zzz", Vec::new())]);
    let mut sorting = Sorting::default();
    sorting.directories = Directories::First;
    let tree = Builder::new(ColorChoice::Never, false).sorting(sorting).build();
    let (out, _) = tree.write_default(&root);
    let expected = format!(
        "{DIR_ICON} .\n- {DIR_ICON} zzz\n- {FILE_ICON} aaa\n"
    );
    assert_eq!(expected, out);
}

#[test]
fn symlink_is_never_traversed() {
    // A symlink that (wrongly) carries children must still render as a
    // single line, because symlinks are classified before directories.
    let link = Entry {
        name: String::from("link"),
        attributes: Some(Attributes::Symlink(SymlinkAttributes)),
        children: vec![file("never-shown.txt")],
    };
    let root = dir(".", vec![link]);
    let tree = Builder::new(ColorChoice::Never, false).build();
    let (out, _) = tree.write_default(&root);
    assert!(out.contains("link"));
    assert!(!out.contains("never-shown.txt"));
}

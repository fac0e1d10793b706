//! Icons for file names: fixed rules on the name, its extensions, and one
//! case-insensitive glob.
use vstd::prelude::*;
use crate::ext::spec_rfind_dot;
use crate::ext::rfind_dot;
use crate::ext::lemma_rfind_dot_take;
use crate::globbing::spec_glob_match_ci;
use crate::globbing::glob_match_ci;
use crate::text::chars_of;
use crate::text::chars_eq_str;
use crate::text::range_eq_str;

verus! {

/// Icon for archive files, like `.zip` or `.tar.gz`.
pub const ICON_ARCHIVE: &'static str = "\u{ea98}";

/// Icon for documentation files, like readme files.
pub const ICON_DOC: &'static str = "\u{eaa4}";

/// Icon for license files.
pub const ICON_LICENSE: &'static str = "\u{e60a}";

/// Icon for lock files.
pub const ICON_LOCK: &'static str = "\u{e672}";

/// Icon for image files.
pub const ICON_IMAGE: &'static str = "\u{f1c5}";

/// The glob that recognizes license files with a suffix.
pub const LICENSE_GLOB: &'static str = "LICEN[CS]E-*";

/// The icon a whole file name asks for.
pub open spec fn spec_icon_for_filename(name: Seq<char>) -> Option<Seq<char>> {
    if name == "CONTRIBUTING.md"@ {
        Some(ICON_DOC@)
    } else if name == ".editorconfig"@ {
        Some("\u{e652}"@)
    } else if name == ".git"@ {
        Some("\u{e702}"@)
    } else if name == ".github"@ {
        Some("\u{e709}"@)
    } else if name == "LICENCE"@ || name == "LICENSE"@ || name == "licence"@ || name
        == "license"@ {
        Some(ICON_LICENSE@)
    } else if name == "package-lock.json"@ || name == "pnpm-lock.yaml"@ {
        Some(ICON_LOCK@)
    } else if name == "README"@ || name == "README.md"@ {
        Some(ICON_DOC@)
    } else if name == ".vscode"@ {
        Some("\u{e8da}"@)
    } else {
        None
    }
}

/// The icon a file extension asks for.
pub open spec fn spec_icon_for_extension(ext: Seq<char>) -> Option<Seq<char>> {
    if ext == "cfg"@ {
        Some("\u{e615}"@)
    } else if ext == "gif"@ || ext == "jpeg"@ || ext == "jpg"@ || ext == "png"@ {
        Some(ICON_IMAGE@)
    } else if ext == "lock"@ {
        Some(ICON_LOCK@)
    } else {
        None
    }
}

/// The icon a double extension asks for.
pub open spec fn spec_icon_for_double_extension(prefix: Seq<char>, suffix: Seq<char>) -> Option<
    Seq<char>,
> {
    if prefix == "tar"@ && suffix == "gz"@ {
        Some(ICON_ARCHIVE@)
    } else {
        None
    }
}

/// The icon a name asks for, trying in turn: the whole name, the double
/// extension, the extension, and the license glob.
pub open spec fn spec_icon_for_path(name: Seq<char>) -> Option<Seq<char>> {
    if spec_icon_for_filename(name) is Some {
        spec_icon_for_filename(name)
    } else if spec_double_ext_icon(name) is Some {
        spec_double_ext_icon(name)
    } else if spec_ext_icon(name) is Some {
        spec_ext_icon(name)
    } else if spec_glob_match_ci(LICENSE_GLOB@, name) {
        Some(ICON_LICENSE@)
    } else {
        None
    }
}

/// The icon the double extension of a name asks for, if it has one.
pub open spec fn spec_double_ext_icon(name: Seq<char>) -> Option<Seq<char>> {
    match spec_rfind_dot(name, name.len() - 1) {
        Some(i) => match spec_rfind_dot(name.take(i), i - 1) {
            Some(j) => spec_icon_for_double_extension(name.subrange(j + 1, i), name.skip(i + 1)),
            None => None,
        },
        None => None,
    }
}

/// The icon the extension of a name asks for, if it has one.
pub open spec fn spec_ext_icon(name: Seq<char>) -> Option<Seq<char>> {
    match spec_rfind_dot(name, name.len() - 1) {
        Some(i) => spec_icon_for_extension(name.skip(i + 1)),
        None => None,
    }
}

/// The icon a whole file name asks for.
fn for_filename(name: &Vec<char>) -> (r: Option<&'static str>)
    ensures
        r matches Some(s) ==> spec_icon_for_filename(name@) == Some(s@),
        r is None ==> spec_icon_for_filename(name@) is None,
{
    if chars_eq_str(name, "CONTRIBUTING.md") {
        Some(ICON_DOC)
    } else if chars_eq_str(name, ".editorconfig") {
        Some("\u{e652}")
    } else if chars_eq_str(name, ".git") {
        Some("\u{e702}")
    } else if chars_eq_str(name, ".github") {
        Some("\u{e709}")
    } else if chars_eq_str(name, "LICENCE") || chars_eq_str(name, "LICENSE") || chars_eq_str(
        name,
        "licence",
    ) || chars_eq_str(name, "license") {
        Some(ICON_LICENSE)
    } else if chars_eq_str(name, "package-lock.json") || chars_eq_str(name, "pnpm-lock.yaml") {
        Some(ICON_LOCK)
    } else if chars_eq_str(name, "README") || chars_eq_str(name, "README.md") {
        Some(ICON_DOC)
    } else if chars_eq_str(name, ".vscode") {
        Some("\u{e8da}")
    } else {
        None
    }
}

/// The icon the character range `name[a..b)`, read as an extension, asks
/// for.
fn for_extension(name: &Vec<char>, a: usize, b: usize) -> (r: Option<&'static str>)
    requires
        a <= b <= name@.len(),
    ensures
        r matches Some(s) ==> spec_icon_for_extension(name@.subrange(a as int, b as int)) == Some(
            s@,
        ),
        r is None ==> spec_icon_for_extension(name@.subrange(a as int, b as int)) is None,
{
    if range_eq_str(name, a, b, "cfg") {
        Some("\u{e615}")
    } else if range_eq_str(name, a, b, "gif") || range_eq_str(name, a, b, "jpeg") || range_eq_str(
        name,
        a,
        b,
        "jpg",
    ) || range_eq_str(name, a, b, "png") {
        Some(ICON_IMAGE)
    } else if range_eq_str(name, a, b, "lock") {
        Some(ICON_LOCK)
    } else {
        None
    }
}

/// The icon the double extension `name[j+1..i)` and `name[i+1..)` asks for.
fn for_double_extension(name: &Vec<char>, j: usize, i: usize) -> (r: Option<&'static str>)
    requires
        j < i < name@.len(),
    ensures
        r matches Some(s) ==> spec_icon_for_double_extension(
            name@.subrange(j + 1, i as int),
            name@.skip(i + 1),
        ) == Some(s@),
        r is None ==> spec_icon_for_double_extension(
            name@.subrange(j + 1, i as int),
            name@.skip(i + 1),
        ) is None,
{
    let n = name.len();
    proof {
        assert(name@.skip(i + 1) =~= name@.subrange(i + 1, n as int));
    }
    if range_eq_str(name, j + 1, i, "tar") && range_eq_str(name, i + 1, n, "gz") {
        Some(ICON_ARCHIVE)
    } else {
        None
    }
}

/// Gets an icon for a file name.
pub fn for_path(name: &str) -> (r: Option<&'static str>)
    ensures
        r matches Some(s) ==> spec_icon_for_path(name@) == Some(s@),
        r is None ==> spec_icon_for_path(name@) is None,
{
    let cs = chars_of(name);
    if let Some(icon) = for_filename(&cs) {
        return Some(icon);
    }
    let n = cs.len();
    let last_dot = if n == 0 {
        None
    } else {
        rfind_dot(&cs, n - 1)
    };
    if let Some(i) = last_dot {
        proof {
            lemma_rfind_dot_take(name@, i as int, i - 1);
        }
        let inner_dot = rfind_dot(&cs, i - 1);
        if let Some(j) = inner_dot {
            if let Some(icon) = for_double_extension(&cs, j, i) {
                return Some(icon);
            }
        }
        proof {
            assert(cs@.skip(i + 1) =~= cs@.subrange(i + 1, n as int));
        }
        if let Some(icon) = for_extension(&cs, i + 1, n) {
            return Some(icon);
        }
    }
    if glob_match_ci(LICENSE_GLOB, name) {
        return Some(ICON_LICENSE);
    }
    None
}

} // verus!

//! Colors for file names: fixed rules on the name, its extensions, and one
//! case-insensitive glob.
use vstd::prelude::*;
use crate::color::AnsiColor;
use crate::color::Color;
use crate::ext::spec_rfind_dot;
use crate::ext::rfind_dot;
use crate::ext::lemma_rfind_dot_take;
use crate::globbing::spec_glob_match_ci;
use crate::globbing::glob_match_ci;
use crate::text::chars_of;
use crate::text::chars_eq_str;
use crate::text::range_eq_str;
use crate::icons::LICENSE_GLOB;

verus! {

/// The color a whole file name asks for.
pub open spec fn spec_color_for_filename(name: Seq<char>) -> Option<Color> {
    if name == ".git"@ {
        Some(Color::Ansi(AnsiColor::Red))
    } else if name == ".github"@ {
        Some(Color::Ansi(AnsiColor::Black))
    } else if name == ".vscode"@ {
        Some(Color::Ansi(AnsiColor::Blue))
    } else {
        None
    }
}

/// The color a file extension asks for.
pub open spec fn spec_color_for_extension(ext: Seq<char>) -> Option<Color> {
    if ext == "7z"@ {
        Some(Color::Ansi(AnsiColor::Black))
    } else if ext == "gif"@ {
        Some(Color::Ansi(AnsiColor::Green))
    } else if ext == "jpeg"@ || ext == "jpg"@ {
        Some(Color::Ansi(AnsiColor::Yellow))
    } else if ext == "png"@ {
        Some(Color::Ansi(AnsiColor::Cyan))
    } else if ext == "sqlite"@ || ext == "sqlite3"@ {
        Some(Color::Ansi(AnsiColor::Blue))
    } else if ext == "tar"@ {
        Some(Color::Ansi(AnsiColor::Green))
    } else if ext == "zip"@ {
        Some(Color::Ansi(AnsiColor::Blue))
    } else {
        None
    }
}

/// The color a double extension asks for.
pub open spec fn spec_color_for_double_extension(prefix: Seq<char>, suffix: Seq<char>) -> Option<
    Color,
> {
    if prefix == "tar"@ && suffix == "gz"@ {
        Some(Color::Ansi(AnsiColor::Green))
    } else {
        None
    }
}

/// The color the double extension of a name asks for, if it has one.
pub open spec fn spec_double_ext_color(name: Seq<char>) -> Option<Color> {
    match spec_rfind_dot(name, name.len() - 1) {
        Some(i) => match spec_rfind_dot(name.take(i), i - 1) {
            Some(j) => spec_color_for_double_extension(name.subrange(j + 1, i), name.skip(i + 1)),
            None => None,
        },
        None => None,
    }
}

/// The color the extension of a name asks for, if it has one.
pub open spec fn spec_ext_color(name: Seq<char>) -> Option<Color> {
    match spec_rfind_dot(name, name.len() - 1) {
        Some(i) => spec_color_for_extension(name.skip(i + 1)),
        None => None,
    }
}

/// The color a name asks for, trying in turn: the whole name, the double
/// extension, the extension, and the license glob.
pub open spec fn spec_color_for_path(name: Seq<char>) -> Option<Color> {
    if spec_color_for_filename(name) is Some {
        spec_color_for_filename(name)
    } else if spec_double_ext_color(name) is Some {
        spec_double_ext_color(name)
    } else if spec_ext_color(name) is Some {
        spec_ext_color(name)
    } else if spec_glob_match_ci(LICENSE_GLOB@, name) {
        Some(Color::Ansi(AnsiColor::Yellow))
    } else {
        None
    }
}

/// The color a whole file name asks for.
fn for_filename(name: &Vec<char>) -> (r: Option<Color>)
    ensures
        r == spec_color_for_filename(name@),
{
    if chars_eq_str(name, ".git") {
        Some(Color::Ansi(AnsiColor::Red))
    } else if chars_eq_str(name, ".github") {
        Some(Color::Ansi(AnsiColor::Black))
    } else if chars_eq_str(name, ".vscode") {
        Some(Color::Ansi(AnsiColor::Blue))
    } else {
        None
    }
}

/// The color the character range `name[a..b)`, read as an extension, asks
/// for.
fn for_extension(name: &Vec<char>, a: usize, b: usize) -> (r: Option<Color>)
    requires
        a <= b <= name@.len(),
    ensures
        r == spec_color_for_extension(name@.subrange(a as int, b as int)),
{
    if range_eq_str(name, a, b, "7z") {
        Some(Color::Ansi(AnsiColor::Black))
    } else if range_eq_str(name, a, b, "gif") {
        Some(Color::Ansi(AnsiColor::Green))
    } else if range_eq_str(name, a, b, "jpeg") || range_eq_str(name, a, b, "jpg") {
        Some(Color::Ansi(AnsiColor::Yellow))
    } else if range_eq_str(name, a, b, "png") {
        Some(Color::Ansi(AnsiColor::Cyan))
    } else if range_eq_str(name, a, b, "sqlite") || range_eq_str(name, a, b, "sqlite3") {
        Some(Color::Ansi(AnsiColor::Blue))
    } else if range_eq_str(name, a, b, "tar") {
        Some(Color::Ansi(AnsiColor::Green))
    } else if range_eq_str(name, a, b, "zip") {
        Some(Color::Ansi(AnsiColor::Blue))
    } else {
        None
    }
}

/// The color the double extension `name[j+1..i)` and `name[i+1..)` asks
/// for.
fn for_double_extension(name: &Vec<char>, j: usize, i: usize) -> (r: Option<Color>)
    requires
        j < i < name@.len(),
    ensures
        r == spec_color_for_double_extension(name@.subrange(j + 1, i as int), name@.skip(i + 1)),
{
    let n = name.len();
    proof {
        assert(name@.skip(i + 1) =~= name@.subrange(i + 1, n as int));
    }
    if range_eq_str(name, j + 1, i, "tar") && range_eq_str(name, i + 1, n, "gz") {
        Some(Color::Ansi(AnsiColor::Green))
    } else {
        None
    }
}

/// Gets a color for a file name.
pub fn for_path(name: &str) -> (r: Option<Color>)
    ensures
        r == spec_color_for_path(name@),
{
    let cs = chars_of(name);
    if let Some(color) = for_filename(&cs) {
        return Some(color);
    }
    let n = cs.len();
    let last_dot = if n == 0 {
        None
    } else {
        rfind_dot(&cs, n - 1)
    };
    if let Some(i) = last_dot {
        proof {
            lemma_rfind_dot_take(name@, i as int, i - 1);
        }
        let inner_dot = rfind_dot(&cs, i - 1);
        if let Some(j) = inner_dot {
            if let Some(color) = for_double_extension(&cs, j, i) {
                return Some(color);
            }
        }
        proof {
            assert(cs@.skip(i + 1) =~= cs@.subrange(i + 1, n as int));
        }
        if let Some(color) = for_extension(&cs, i + 1, n) {
            return Some(color);
        }
    }
    if glob_match_ci(LICENSE_GLOB, name) {
        return Some(Color::Ansi(AnsiColor::Yellow));
    }
    None
}

} // verus!

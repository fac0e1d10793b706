//! The configuration directory, and the data the configuration carries.
use vstd::prelude::*;
use core::cmp::Ordering;
use crate::color::ColorChoice;
use crate::sorting::Sorting;
use crate::sorting::spec_sort_cmp;

verus! {

/// The project configuration directory.
pub struct ConfigDir {
    /// The directory that holds the configuration files.
    path: String,
}

/// Relies on `directories::ProjectDirs::from` and `config_dir`: the
/// per-user configuration directory for this application, which depends on
/// the environment; nothing when no home directory is known.
#[verifier::external_body]
fn project_config_dir() -> Option<String> {
    directories::ProjectDirs::from("", "", "fancy-tree").map(
        |dirs| dirs.config_dir().to_string_lossy().into_owned(),
    )
}

impl ConfigDir {
    /// The directory containing the config files, found from the
    /// environment; an error when no home directory is known.
    pub fn new() -> (r: Result<ConfigDir, &'static str>)
        ensures
            r matches Err(m) ==> m@ == "Missing home directory"@,
    {
        match project_config_dir() {
            Some(path) => Ok(ConfigDir { path }),
            None => Err("Missing home directory"),
        }
    }

    /// A configuration directory at a known path.
    pub fn at(path: String) -> (r: ConfigDir)
        ensures
            r.spec_path() == path@,
    {
        ConfigDir { path }
    }

    /// The directory's path.
    pub closed spec fn spec_path(&self) -> Seq<char> {
        self.path@
    }

    /// Gets the config directory for the project.
    pub fn path(&self) -> (r: &str)
        ensures
            r@ == self.spec_path(),
    {
        self.path.as_str()
    }

    /// Gets the path of a file in the configuration directory from its
    /// filename.
    fn file_name(&self, name: &str) -> (r: String)
        ensures
            r@ == self.spec_path() + "/"@ + name@,
    {
        let mut p = self.path.clone();
        p.append("/");
        p.append(name);
        p
    }

    /// Gets the path to the main configuration file.
    pub fn main_path(&self) -> (r: String)
        ensures
            r@ == self.spec_path() + "/"@ + "config.lua"@,
    {
        self.file_name("config.lua")
    }

    /// Gets the path to the icons configuration file.
    pub fn icons_path(&self) -> (r: String)
        ensures
            r@ == self.spec_path() + "/"@ + "icons.lua"@,
    {
        self.file_name("icons.lua")
    }

    /// Gets the path to the colors configuration file.
    pub fn colors_path(&self) -> (r: String)
        ensures
            r@ == self.spec_path() + "/"@ + "colors.lua"@,
    {
        self.file_name("colors.lua")
    }
}

/// Common behavior for configuration files.
pub trait ConfigFile {
    /// The filename in the configuration directory.
    fn filename() -> &'static str;
}

/// The data the main configuration carries: the color choice and the
/// sorting policy. The optional override callables it may also name are
/// carried separately, behind [`crate::policy::Overrides`].
#[derive(Debug, Clone, Copy)]
pub struct Main {
    /// Determines when the application should show colors.
    pub color: Option<ColorChoice>,
    /// Determines how to sort files in a directory.
    pub sorting: Sorting,
}

impl Main {
    /// Gets the configured color choice.
    pub fn color_choice(&self) -> (r: Option<ColorChoice>)
        ensures
            r == self.color,
    {
        self.color
    }

    /// Compares two sibling entries for sorting, each given by its name and
    /// whether it is a directory.
    pub fn cmp(&self, left: &str, left_is_dir: bool, right: &str, right_is_dir: bool) -> (r:
        Ordering)
        ensures
            r == spec_sort_cmp(self.sorting, left@, left_is_dir, right@, right_is_dir),
    {
        self.sorting.cmp(left, left_is_dir, right, right_is_dir)
    }

    /// Converts a number returned by a comparison callable into an
    /// ordering: negative for less-than, zero for equal, positive for
    /// greater-than.
    pub fn isize_to_ordering(n: isize) -> (r: Ordering)
        ensures
            n < 0 ==> r == Ordering::Less,
            n == 0 ==> r == Ordering::Equal,
            n > 0 ==> r == Ordering::Greater,
    {
        if n < 0 {
            Ordering::Less
        } else if n == 0 {
            Ordering::Equal
        } else {
            Ordering::Greater
        }
    }
}

impl Default for Main {
    /// No configured color choice, default sorting.
    fn default() -> (r: Self)
        ensures
            r.color is None,
            r.sorting == (Sorting {
                method: crate::sorting::Method::Naive,
                direction: crate::sorting::Direction::Asc,
                directories: crate::sorting::Directories::Mixed,
                ignore_case: false,
                ignore_dot: false,
            }),
    {
        Main { color: None, sorting: Sorting::default() }
    }
}

impl ConfigFile for Main {
    /// The main configuration lives in `config.lua`.
    fn filename() -> (r: &'static str)
        ensures
            r@ == "config.lua"@,
    {
        "config.lua"
    }
}

} // verus!

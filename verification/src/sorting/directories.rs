//! How directories are placed relative to files when sorting.
use vstd::prelude::*;
use crate::text::str_eq;
use core::cmp::Ordering;

verus! {

/// How directories should be included in sorting.
#[derive(Debug, PartialEq, Eq, Structural, Clone, Copy)]
pub enum Directories {
    /// Directories and files should be mixed together.
    Mixed,
    /// Directories should come first.
    First,
    /// Directories should be last.
    Last,
}

/// What a placement policy says about two entries, given only whether each
/// one is a directory. `Mixed` never separates kinds; otherwise equal kinds
/// fall through to the name comparison.
pub open spec fn spec_placement_cmp(p: Directories, left_is_dir: bool, right_is_dir: bool) -> Ordering {
    match p {
        Directories::Mixed => Ordering::Equal,
        Directories::First => if left_is_dir == right_is_dir {
            Ordering::Equal
        } else if left_is_dir {
            Ordering::Less
        } else {
            Ordering::Greater
        },
        Directories::Last => if left_is_dir == right_is_dir {
            Ordering::Equal
        } else if left_is_dir {
            Ordering::Greater
        } else {
            Ordering::Less
        },
    }
}

impl Directories {
    /// Compares two entries by their directory placement alone.
    pub fn cmp(&self, left_is_dir: bool, right_is_dir: bool) -> (r: Ordering)
        ensures
            r == spec_placement_cmp(*self, left_is_dir, right_is_dir),
    {
        self.cmp_impl(left_is_dir, right_is_dir)
    }

    /// Implementation for comparison.
    fn cmp_impl(&self, left_is_dir: bool, right_is_dir: bool) -> (r: Ordering)
        ensures
            r == spec_placement_cmp(*self, left_is_dir, right_is_dir),
    {
        if let Directories::Mixed = self {
            return Ordering::Equal;
        }
        if left_is_dir == right_is_dir {
            return Ordering::Equal;
        }
        match (self, left_is_dir) {
            (Directories::First, true) | (Directories::Last, false) => Ordering::Less,
            _ => Ordering::Greater,
        }
    }

    /// Reads a placement from its configured name: `mixed`, `first` or
    /// `last`.
    pub fn from_string(s: &str) -> (r: Option<Directories>)
        ensures
            r == (if s@ == "mixed"@ {
                Some(Directories::Mixed)
            } else if s@ == "first"@ {
                Some(Directories::First)
            } else if s@ == "last"@ {
                Some(Directories::Last)
            } else {
                None::<Directories>
            }),
    {
        if str_eq(s, "mixed") {
            Some(Directories::Mixed)
        } else if str_eq(s, "first") {
            Some(Directories::First)
        } else if str_eq(s, "last") {
            Some(Directories::Last)
        } else {
            None
        }
    }
}

impl Default for Directories {
    /// By default directories and files are mixed together.
    fn default() -> (r: Self)
        ensures
            r == Directories::Mixed,
    {
        Directories::Mixed
    }
}

/// Directory placement is decisive: a directory and a file are ordered by
/// the placement policy alone, whatever their names are.
pub proof fn lemma_directory_placement(dir: bool, file: bool)
    requires
        dir,
        !file,
    ensures
        spec_placement_cmp(Directories::First, dir, file) == Ordering::Less,
        spec_placement_cmp(Directories::Last, dir, file) == Ordering::Greater,
        spec_placement_cmp(Directories::Mixed, dir, file) == Ordering::Equal,
{
}

} // verus!

//! Version-control statuses for a file, decoded from raw status bits.
use vstd::prelude::*;

verus! {

/// Git statuses (tracked/indexed or untracked/worktree) for a file.
#[derive(Debug, Clone, Copy, PartialEq, Eq, Structural)]
pub enum Status {
    /// A new file.
    Added,
    /// A file was changed.
    Modified,
    /// A file was removed.
    Removed,
    /// A file was renamed.
    Renamed,
}

/// The one-character marker written in front of an entry for a status.
pub open spec fn spec_status_marker(s: Status) -> Seq<char> {
    match s {
        Status::Added => "+"@,
        Status::Modified => "~"@,
        Status::Removed => "-"@,
        Status::Renamed => "R"@,
    }
}

/// The name a status carries in configuration, for override callables.
pub open spec fn spec_status_name(s: Status) -> Seq<char> {
    match s {
        Status::Added => "added"@,
        Status::Modified => "modified"@,
        Status::Removed => "removed"@,
        Status::Renamed => "renamed"@,
    }
}

impl Status {
    /// Gets the string representation of a git status.
    pub fn as_str(&self) -> (r: &'static str)
        ensures
            r@ == spec_status_marker(*self),
    {
        match self {
            Status::Added => "+",
            Status::Modified => "~",
            Status::Removed => "-",
            Status::Renamed => "R",
        }
    }

    /// The name the status carries in configuration.
    pub fn config_name(&self) -> (r: &'static str)
        ensures
            r@ == spec_status_name(*self),
    {
        match self {
            Status::Added => "added",
            Status::Modified => "modified",
            Status::Removed => "removed",
            Status::Renamed => "renamed",
        }
    }
}

/// The raw status bits that describe index-relative (tracked) changes, with
/// the values the git library documents: new, modified, deleted, renamed.
pub open spec fn spec_tracked_of_bits(bits: u32) -> Option<Status> {
    if bits & 0x0001u32 != 0 {
        Some(Status::Added)
    } else if bits & 0x0002u32 != 0 {
        Some(Status::Modified)
    } else if bits & 0x0004u32 != 0 {
        Some(Status::Removed)
    } else if bits & 0x0008u32 != 0 {
        Some(Status::Renamed)
    } else {
        None
    }
}

/// The raw status bits that describe worktree-relative (untracked) changes.
pub open spec fn spec_untracked_of_bits(bits: u32) -> Option<Status> {
    if bits & 0x0080u32 != 0 {
        Some(Status::Added)
    } else if bits & 0x0100u32 != 0 {
        Some(Status::Modified)
    } else if bits & 0x0200u32 != 0 {
        Some(Status::Removed)
    } else if bits & 0x0800u32 != 0 {
        Some(Status::Renamed)
    } else {
        None
    }
}

/// Trait to generalize getting a git status from raw status bits.
pub trait StatusGetter {
    /// What the decoder says for given bits.
    spec fn spec_from_bits(bits: u32) -> Option<Status>;

    /// Decodes raw status bits.
    fn from_bits(bits: u32) -> (r: Option<Status>)
        ensures
            r == Self::spec_from_bits(bits),
    ;
}

/// The tracked (index-relative) git status.
pub struct TrackedStatus;

impl StatusGetter for TrackedStatus {
    open spec fn spec_from_bits(bits: u32) -> Option<Status> {
        spec_tracked_of_bits(bits)
    }

    /// Gets the index status from the raw status bits.
    fn from_bits(bits: u32) -> (r: Option<Status>)
        ensures
            r == spec_tracked_of_bits(bits),
    {
        if bits & 0x0001u32 != 0 {
            Some(Status::Added)
        } else if bits & 0x0002u32 != 0 {
            Some(Status::Modified)
        } else if bits & 0x0004u32 != 0 {
            Some(Status::Removed)
        } else if bits & 0x0008u32 != 0 {
            Some(Status::Renamed)
        } else {
            None
        }
    }
}

/// The untracked (worktree-relative) git status.
pub struct UntrackedStatus;

impl StatusGetter for UntrackedStatus {
    open spec fn spec_from_bits(bits: u32) -> Option<Status> {
        spec_untracked_of_bits(bits)
    }

    /// Gets the worktree status from the raw status bits.
    fn from_bits(bits: u32) -> (r: Option<Status>)
        ensures
            r == spec_untracked_of_bits(bits),
    {
        if bits & 0x0080u32 != 0 {
            Some(Status::Added)
        } else if bits & 0x0100u32 != 0 {
            Some(Status::Modified)
        } else if bits & 0x0200u32 != 0 {
            Some(Status::Removed)
        } else if bits & 0x0800u32 != 0 {
            Some(Status::Renamed)
        } else {
            None
        }
    }
}

} // verus!

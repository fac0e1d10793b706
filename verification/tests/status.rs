//! Tests for decoding raw version-control status bits.
use fancy_tree::git::Status;
use fancy_tree::git::StatusGetter;
use fancy_tree::git::TrackedStatus;
use fancy_tree::git::UntrackedStatus;

const INDEX_NEW: u32 = 1 << 0;
const INDEX_MODIFIED: u32 = 1 << 1;
const INDEX_DELETED: u32 = 1 << 2;
const INDEX_RENAMED: u32 = 1 << 3;
const WT_NEW: u32 = 1 << 7;
const WT_MODIFIED: u32 = 1 << 8;
const WT_DELETED: u32 = 1 << 9;
const WT_RENAMED: u32 = 1 << 11;

#[test]
fn test_tracked_from_bits() {
    assert_eq!(Some(Status::Added), TrackedStatus::from_bits(INDEX_NEW));
    assert_eq!(Some(Status::Modified), TrackedStatus::from_bits(INDEX_MODIFIED));
    assert_eq!(Some(Status::Removed), TrackedStatus::from_bits(INDEX_DELETED));
    assert_eq!(Some(Status::Renamed), TrackedStatus::from_bits(INDEX_RENAMED));
    assert_eq!(None, TrackedStatus::from_bits(WT_NEW));
}

#[test]
fn test_untracked_from_bits() {
    assert_eq!(Some(Status::Added), UntrackedStatus::from_bits(WT_NEW));
    assert_eq!(Some(Status::Modified), UntrackedStatus::from_bits(WT_MODIFIED));
    assert_eq!(Some(Status::Removed), UntrackedStatus::from_bits(WT_DELETED));
    assert_eq!(Some(Status::Renamed), UntrackedStatus::from_bits(WT_RENAMED));
    assert_eq!(None, UntrackedStatus::from_bits(INDEX_NEW));
}

#[test]
fn status_markers() {
    assert_eq!("+", Status::Added.as_str());
    assert_eq!("~", Status::Modified.as_str());
    assert_eq!("-", Status::Removed.as_str());
    assert_eq!("R", Status::Renamed.as_str());
}

#[test]
fn status_config_names() {
    assert_eq!("added", Status::Added.config_name());
    assert_eq!("modified", Status::Modified.config_name());
    assert_eq!("removed", Status::Removed.config_name());
    assert_eq!("renamed", Status::Renamed.config_name());
}

#[test]
fn mixed_bits_prefer_index_order() {
    // A path new in the index and modified in the worktree reports both
    // kinds at once.
    let bits = INDEX_NEW | WT_MODIFIED;
    assert_eq!(Some(Status::Added), TrackedStatus::from_bits(bits));
    assert_eq!(Some(Status::Modified), UntrackedStatus::from_bits(bits));
}

//! Tests for the sorting engine: methods, placement, direction and the
//! combined policy.
use std::cmp::Ordering;
use fancy_tree::sorting::Directories;
use fancy_tree::sorting::Direction;
use fancy_tree::sorting::Method;
use fancy_tree::sorting::Sorting;

fn policy() -> Sorting {
    Sorting::default()
}

#[test]
fn naive_orders_by_bytes() {
    assert_eq!(Ordering::Less, Method::Naive.cmp("a", "b"));
    assert_eq!(Ordering::Greater, Method::Naive.cmp("2", "10"));
}

#[test]
fn natural_orders_numbers_numerically() {
    assert_eq!(Ordering::Less, Method::Natural.cmp("a", "b"));
    assert_eq!(Ordering::Less, Method::Natural.cmp("2", "10"));
    assert_eq!(Ordering::Less, Method::Natural.cmp("2.txt", "10.txt"));
    assert_eq!(Ordering::Greater, Method::Natural.cmp("12.txt", "10.txt"));
    assert_eq!(Ordering::Less, Method::Natural.cmp("1-2.txt", "10.txt"));
    assert_eq!(Ordering::Less, Method::Natural.cmp("100-a.txt", "100-b.txt"));
}

#[test]
fn natural_with_prefix_and_suffix() {
    assert_eq!(Ordering::Less, Method::Natural.cmp("notes-2.txt", "notes-10.txt"));
    assert_eq!(Ordering::Greater, Method::Naive.cmp("notes-2.txt", "notes-10.txt"));
}

#[test]
fn natural_zero_padding_compares_by_value() {
    assert_eq!(Ordering::Equal, Method::Natural.cmp("a01", "a1"));
    assert_eq!(Ordering::Less, Method::Natural.cmp("a002", "a10"));
}

#[test]
fn directories_placement() {
    // A directory against a file, for each placement policy.
    assert_eq!(Ordering::Less, Directories::First.cmp(true, false));
    assert_eq!(Ordering::Greater, Directories::Last.cmp(true, false));
    assert_eq!(Ordering::Equal, Directories::Mixed.cmp(true, false));
    assert_eq!(Ordering::Greater, Directories::First.cmp(false, true));
    assert_eq!(Ordering::Less, Directories::Last.cmp(false, true));
    assert_eq!(Ordering::Equal, Directories::Mixed.cmp(false, true));
    assert_eq!(Ordering::Equal, Directories::First.cmp(true, true));
    assert_eq!(Ordering::Equal, Directories::Last.cmp(false, false));
}

#[test]
fn placement_beats_names() {
    let mut s = policy();
    s.directories = Directories::First;
    // The directory named later still sorts first.
    assert_eq!(Ordering::Less, s.cmp("zzz", true, "aaa", false));
    s.directories = Directories::Last;
    assert_eq!(Ordering::Greater, s.cmp("aaa", true, "zzz", false));
}

#[test]
fn ignore_dot_compares_stripped_names() {
    let mut s = policy();
    s.ignore_dot = true;
    assert_eq!(Ordering::Equal, s.cmp(".env", false, "env", false));
}

#[test]
fn ignore_case_folds_ascii() {
    let mut s = policy();
    s.ignore_case = true;
    assert_eq!(Ordering::Equal, s.cmp("Dockerfile", false, "dockerfile", false));
}

#[test]
fn direction_desc_reverses() {
    let mut s = policy();
    s.direction = Direction::Desc;
    assert_eq!(Ordering::Greater, s.cmp("a", false, "b", false));
    assert_eq!(Ordering::Equal, s.cmp("a", false, "a", false));
}

#[test]
fn method_from_string() {
    assert_eq!(Some(Method::Naive), Method::from_string("naive"));
    assert_eq!(Some(Method::Natural), Method::from_string("natural"));
    assert_eq!(None, Method::from_string("fancy"));
}

#[test]
fn direction_from_string_accepts_prefixes() {
    assert_eq!(Some(Direction::Asc), Direction::from_string("asc"));
    assert_eq!(Some(Direction::Asc), Direction::from_string("ascending"));
    assert_eq!(Some(Direction::Desc), Direction::from_string("desc"));
    assert_eq!(Some(Direction::Desc), Direction::from_string("descending"));
    assert_eq!(None, Direction::from_string("up"));
}

#[test]
fn directories_from_string() {
    assert_eq!(Some(Directories::Mixed), Directories::from_string("mixed"));
    assert_eq!(Some(Directories::First), Directories::from_string("first"));
    assert_eq!(Some(Directories::Last), Directories::from_string("last"));
    assert_eq!(None, Directories::from_string("sideways"));
}

#[test]
fn natural_merges_adjacent_digits() {
    // A digit at the end of the shared prefix merges into the embedded
    // numbers: the runs become 12 and 110.
    assert_eq!(Ordering::Less, Method::Natural.cmp("v12", "v110"));
    // A digit opening the shared suffix merges too: 25 against 105.
    assert_eq!(Ordering::Less, Method::Natural.cmp("25x", "105x"));
}

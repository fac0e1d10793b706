//! The direction in which sibling entries are ordered.
use vstd::prelude::*;
use vstd::string::StrSliceExecFns;
use core::cmp::Ordering;

verus! {

/// The direction to sort in.
#[derive(Debug, PartialEq, Eq, Structural, Clone, Copy)]
pub enum Direction {
    /// Ascending order.
    Asc,
    /// Descending order.
    Desc,
}

/// The mirror image of an ordering, used for descending sorts.
pub open spec fn spec_reverse(o: Ordering) -> Ordering {
    match o {
        Ordering::Less => Ordering::Greater,
        Ordering::Equal => Ordering::Equal,
        Ordering::Greater => Ordering::Less,
    }
}

/// What a direction does to an ascending ordering.
pub open spec fn spec_apply_direction(d: Direction, o: Ordering) -> Ordering {
    match d {
        Direction::Asc => o,
        Direction::Desc => spec_reverse(o),
    }
}

impl Direction {
    /// Applies the direction to an ascending comparison result.
    pub fn apply(&self, o: Ordering) -> (r: Ordering)
        ensures
            r == spec_apply_direction(*self, o),
    {
        match self {
            Direction::Asc => o,
            Direction::Desc => match o {
                Ordering::Less => Ordering::Greater,
                Ordering::Equal => Ordering::Equal,
                Ordering::Greater => Ordering::Less,
            },
        }
    }

    /// Reads a direction from its configured name; any string starting with
    /// `asc` or `desc` (such as `ascending`) is accepted.
    pub fn from_string(s: &str) -> (r: Option<Direction>)
        ensures
            spec_str_has_prefix(s@, "asc"@) ==> r == Some(Direction::Asc),
            !spec_str_has_prefix(s@, "asc"@) && spec_str_has_prefix(s@, "desc"@) ==> r == Some(
                Direction::Desc,
            ),
            !spec_str_has_prefix(s@, "asc"@) && !spec_str_has_prefix(s@, "desc"@) ==> r is None,
    {
        if str_has_prefix(s, "asc") {
            Some(Direction::Asc)
        } else if str_has_prefix(s, "desc") {
            Some(Direction::Desc)
        } else {
            None
        }
    }
}

impl Default for Direction {
    /// The default direction is ascending.
    fn default() -> (r: Self)
        ensures
            r == Direction::Asc,
    {
        Direction::Asc
    }
}

/// Does `s` start with `prefix`?
pub open spec fn spec_str_has_prefix(s: Seq<char>, prefix: Seq<char>) -> bool {
    prefix.len() <= s.len() && s.take(prefix.len() as int) == prefix
}

/// Checks whether `s` starts with `prefix`.
pub fn str_has_prefix(s: &str, prefix: &str) -> (r: bool)
    ensures
        r == spec_str_has_prefix(s@, prefix@),
{
    let n = s.unicode_len();
    let m = prefix.unicode_len();
    if m > n {
        return false;
    }
    let mut i: usize = 0;
    while i < m
        invariant
            i <= m,
            m <= n,
            n == s@.len(),
            m == prefix@.len(),
            forall|k: int| 0 <= k < i ==> s@[k] == prefix@[k],
        decreases m - i,
    {
        if s.get_char(i) != prefix.get_char(i) {
            assert(s@.take(m as int)[i as int] != prefix@[i as int]);
            return false;
        }
        i = i + 1;
    }
    assert(s@.take(m as int) =~= prefix@);
    true
}

} // verus!

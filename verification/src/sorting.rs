//! Sorting policy for the sibling entries of a directory.
//!
//! The sorting priorities are:
//!
//! 1. directory placement
//! 2. name comparison method
use vstd::prelude::*;
use core::cmp::Ordering;
pub use direction::Direction;
pub use direction::spec_apply_direction;
pub use directories::Directories;
pub use directories::spec_placement_cmp;
pub use method::Method;
pub use method::method_cmp;
pub use method::natural_cmp;
pub use method::lex_cmp;
pub use method::is_ascii_digit_char;
pub use method::is_digit_seq;
pub use method::run_value;
pub use method::run_len;
pub use method::lemma_run_len;
use method::lemma_run_len_is;
use method::lemma_merged_value_lt;
use crate::text::chars_of;

mod direction;
mod directories;
mod method;

verus! {

/// Sorting options for the entries of a directory.
#[derive(Debug, Clone, Copy)]
pub struct Sorting {
    /// How name comparison should be done.
    pub method: Method,
    /// The direction to sort.
    pub direction: Direction,
    /// Where to place directories.
    pub directories: Directories,
    /// Whether to ignore ASCII case when comparing names.
    pub ignore_case: bool,
    /// Whether to ignore the leading dot in dotfile names.
    pub ignore_dot: bool,
}

/// Folds one ASCII uppercase letter to lowercase; anything else is kept.
pub open spec fn fold_char(c: char) -> char {
    if 65 <= (c as u32) <= 90 {
        ((c as u32) + 32) as char
    } else {
        c
    }
}

/// Strips a single leading dot when the policy asks for it.
pub open spec fn spec_clean_dot(name: Seq<char>, ignore_dot: bool) -> Seq<char> {
    if ignore_dot && name.len() > 0 && name[0] == '.' {
        name.skip(1)
    } else {
        name
    }
}

/// Folds the name to lowercase when the policy asks for it.
pub open spec fn spec_clean_casing(name: Seq<char>, ignore_case: bool) -> Seq<char> {
    if ignore_case {
        name.map_values(|c: char| fold_char(c))
    } else {
        name
    }
}

/// The name that the comparison actually sees, after dot and case cleaning.
pub open spec fn spec_cleaned(s: Sorting, name: Seq<char>) -> Seq<char> {
    spec_clean_casing(spec_clean_dot(name, s.ignore_dot), s.ignore_case)
}

/// The full comparison: directory placement first; on equal kinds the
/// cleaned names compare by the method; the direction reverses the result.
pub open spec fn spec_sort_cmp(
    s: Sorting,
    left: Seq<char>,
    left_is_dir: bool,
    right: Seq<char>,
    right_is_dir: bool,
) -> Ordering {
    let placed = spec_placement_cmp(s.directories, left_is_dir, right_is_dir);
    let base = if placed != Ordering::Equal {
        placed
    } else {
        method_cmp(s.method, spec_cleaned(s, left), spec_cleaned(s, right))
    };
    spec_apply_direction(s.direction, base)
}

impl Sorting {
    /// Cleans a name as the policy asks: strips one leading dot, folds
    /// ASCII case.
    pub fn clean_name(&self, name: &str) -> (r: Vec<char>)
        ensures
            r@ == spec_cleaned(*self, name@),
    {
        let cs = chars_of(name);
        let mut start: usize = 0;
        if self.ignore_dot && cs.len() > 0 && cs[0] == '.' {
            start = 1;
        }
        let ghost dotted = spec_clean_dot(name@, self.ignore_dot);
        proof {
            assert(cs@.skip(start as int) =~= dotted);
        }
        let n = cs.len();
        let mut r: Vec<char> = Vec::new();
        let mut i: usize = start;
        while i < n
            invariant
                start <= i <= n,
                n == cs@.len(),
                dotted == cs@.skip(start as int),
                r@.len() == i - start,
                forall|k: int|
                    0 <= k < i - start ==> r@[k] == (if self.ignore_case {
                        fold_char(dotted[k])
                    } else {
                        dotted[k]
                    }),
            decreases n - i,
        {
            let c = cs[i];
            if self.ignore_case {
                let u: u32 = c as u32;
                if 65 <= u && u <= 90 {
                    let low: u8 = (u as u8) + 32;
                    r.push(low as char);
                    proof {
                        assert(dotted[i - start] == cs@[i as int]);
                        assert((low as char) == fold_char(c));
                    }
                } else {
                    r.push(c);
                    proof {
                        assert(dotted[i - start] == cs@[i as int]);
                        assert(c == fold_char(c));
                    }
                }
            } else {
                r.push(c);
                proof {
                    assert(dotted[i - start] == cs@[i as int]);
                }
            }
            i = i + 1;
        }
        proof {
            if self.ignore_case {
                assert(r@ =~= dotted.map_values(|c: char| fold_char(c)));
            } else {
                assert(r@ =~= dotted);
            }
        }
        r
    }

    /// Compares two sibling entries, each given by its name and whether it
    /// is a directory.
    pub fn cmp(&self, left: &str, left_is_dir: bool, right: &str, right_is_dir: bool) -> (r:
        Ordering)
        ensures
            r == spec_sort_cmp(*self, left@, left_is_dir, right@, right_is_dir),
    {
        let placed = self.directories.cmp(left_is_dir, right_is_dir);
        let base = match placed {
            Ordering::Equal => {
                let lv = self.clean_name(left);
                let rv = self.clean_name(right);
                self.method.cmp_chars(&lv, &rv)
            },
            _ => placed,
        };
        self.direction.apply(base)
    }
}

impl Default for Sorting {
    /// The default policy: naive method, ascending, mixed placement, case
    /// and dots both significant.
    fn default() -> (r: Self)
        ensures
            r == (Sorting {
                method: Method::Naive,
                direction: Direction::Asc,
                directories: Directories::Mixed,
                ignore_case: false,
                ignore_dot: false,
            }),
    {
        Sorting {
            method: Method::Naive,
            direction: Direction::Asc,
            directories: Directories::Mixed,
            ignore_case: false,
            ignore_dot: false,
        }
    }
}

/// The merged-run case of [`lemma_natural_sorts_numbers`]: when everything
/// in front of the embedded numbers is digits, the numbers merge with
/// those digits and with any digits opening the suffix, and the combined
/// runs still compare by the embedded values.
proof fn lemma_natural_merged(front: Seq<char>, da: Seq<char>, db: Seq<char>, s: Seq<char>)
    requires
        is_digit_seq(front),
        is_digit_seq(da),
        is_digit_seq(db),
        da.len() > 0,
        db.len() > 0,
        da.len() > 1 ==> da[0] != '0',
        run_value(da) < run_value(db),
    ensures
        natural_cmp(front + da + s, front + db + s) == Ordering::Less,
{
    let a = front + da + s;
    let b = front + db + s;
    lemma_run_len(s);
    let sd = run_len(s);
    let sdseq = s.take(sd);
    assert(is_digit_seq(sdseq)) by {
        assert(forall|k: int| 0 <= k < sd ==> sdseq[k] == s[k]);
    }
    let ra = front.len() + da.len() + sd;
    let rb = front.len() + db.len() + sd;
    assert forall|k: int| 0 <= k < ra implies is_ascii_digit_char(#[trigger] a[k]) by {
        if k < front.len() {
            assert(a[k] == front[k]);
        } else if k < front.len() + da.len() {
            assert(a[k] == da[k - front.len()]);
        } else {
            assert(a[k] == s[k - front.len() - da.len()]);
        }
    }
    if ra < a.len() {
        assert(a[ra] == s[sd]);
    }
    lemma_run_len_is(a, ra);
    assert forall|k: int| 0 <= k < rb implies is_ascii_digit_char(#[trigger] b[k]) by {
        if k < front.len() {
            assert(b[k] == front[k]);
        } else if k < front.len() + db.len() {
            assert(b[k] == db[k - front.len()]);
        } else {
            assert(b[k] == s[k - front.len() - db.len()]);
        }
    }
    if rb < b.len() {
        assert(b[rb] == s[sd]);
    }
    lemma_run_len_is(b, rb);
    assert(a.take(ra) =~= front + da + sdseq);
    assert(b.take(rb) =~= front + db + sdseq);
    lemma_merged_value_lt(front, da, db, sdseq);
    assert(a[0] == b[0] || front.len() == 0);
    assert(is_ascii_digit_char(a[0]) && is_ascii_digit_char(b[0])) by {
        if front.len() > 0 {
            assert(a[0] == front[0] && b[0] == front[0]);
        } else {
            assert(a[0] == da[0] && b[0] == db[0]);
        }
    }
    assert(run_value(a.take(run_len(a))) < run_value(b.take(run_len(b))));
}

/// Natural sort orders embedded numbers numerically: around any common
/// textual prefix and suffix, the name holding the smaller number sorts
/// first. Digits that the prefix ends with or the suffix begins with merge
/// into the numbers on both sides and the comparison still follows the
/// embedded values.
pub proof fn lemma_natural_sorts_numbers(p: Seq<char>, da: Seq<char>, db: Seq<char>, s: Seq<char>)
    requires
        is_digit_seq(da),
        is_digit_seq(db),
        da.len() > 0,
        db.len() > 0,
        da.len() > 1 ==> da[0] != '0',
        run_value(da) < run_value(db),
    ensures
        natural_cmp(p + da + s, p + db + s) == Ordering::Less,
    decreases p.len(),
{
    let a = p + da + s;
    let b = p + db + s;
    if p.len() == 0 {
        assert(a =~= Seq::<char>::empty() + da + s);
        assert(b =~= Seq::<char>::empty() + db + s);
        assert(is_digit_seq(Seq::<char>::empty()));
        lemma_natural_merged(Seq::empty(), da, db, s);
    } else if !is_ascii_digit_char(p[0]) {
        assert(a[0] == p[0]);
        assert(b[0] == p[0]);
        assert(a.skip(1) =~= p.skip(1) + da + s);
        assert(b.skip(1) =~= p.skip(1) + db + s);
        lemma_natural_sorts_numbers(p.skip(1), da, db, s);
    } else {
        lemma_run_len(p);
        let rl = run_len(p);
        if rl == p.len() {
            assert(is_digit_seq(p));
            lemma_natural_merged(p, da, db, s);
        } else {
            assert(forall|k: int| 0 <= k < rl ==> a[k] == p[k] && b[k] == p[k]);
            assert(a[rl] == p[rl] && b[rl] == p[rl]);
            lemma_run_len_is(a, rl);
            lemma_run_len_is(b, rl);
            assert(a.take(rl) =~= b.take(rl));
            assert(run_value(a.take(run_len(a))) == run_value(b.take(run_len(b))));
            assert(a[0] == p[0] && b[0] == p[0]);
            assert(a.skip(rl) =~= p.skip(rl) + da + s);
            assert(b.skip(rl) =~= p.skip(rl) + db + s);
            assert(rl >= 1);
            lemma_natural_sorts_numbers(p.skip(rl), da, db, s);
        }
    }
}

} // verus!

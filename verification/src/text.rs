//! Small utilities for working with strings as sequences of characters.
use vstd::prelude::*;
use vstd::string::StrSliceExecFns;

verus! {

/// Collects the characters of a string slice into a vector.
pub fn chars_of(s: &str) -> (r: Vec<char>)
    ensures
        r@ == s@,
{
    let n = s.unicode_len();
    let mut r: Vec<char> = Vec::new();
    let mut i: usize = 0;
    while i < n
        invariant
            i <= n,
            n == s@.len(),
            r@ == s@.take(i as int),
        decreases n - i,
    {
        let c = s.get_char(i);
        r.push(c);
        i = i + 1;
        assert(r@ =~= s@.take(i as int));
    }
    assert(s@.take(n as int) =~= s@);
    r
}

/// Compares two string slices for character-by-character equality.
pub fn str_eq(a: &str, b: &str) -> (r: bool)
    ensures
        r == (a@ == b@),
{
    let n = a.unicode_len();
    let m = b.unicode_len();
    if n != m {
        assert(a@ != b@) by {
            assert(a@.len() != b@.len());
        }
        return false;
    }
    let mut i: usize = 0;
    while i < n
        invariant
            i <= n,
            n == a@.len(),
            n == b@.len(),
            forall|k: int| 0 <= k < i ==> a@[k] == b@[k],
        decreases n - i,
    {
        if a.get_char(i) != b.get_char(i) {
            return false;
        }
        i = i + 1;
    }
    assert(a@ =~= b@);
    true
}

/// Appends the characters of a string slice to a character vector.
pub fn push_str_chars(out: &mut Vec<char>, s: &str)
    ensures
        final(out)@ == old(out)@ + s@,
{
    let n = s.unicode_len();
    let mut i: usize = 0;
    while i < n
        invariant
            i <= n,
            n == s@.len(),
            out@ == old(out)@ + s@.take(i as int),
        decreases n - i,
    {
        let c = s.get_char(i);
        out.push(c);
        i = i + 1;
        assert(out@ =~= old(out)@ + s@.take(i as int));
    }
    assert(s@.take(n as int) =~= s@);
    assert(out@ =~= old(out)@ + s@);
}

/// Does the name begin with a literal dot, the Unix convention for dotfiles?
pub open spec fn spec_starts_with_dot(name: Seq<char>) -> bool {
    name.len() > 0 && name[0] == '.'
}

/// Checks whether a name begins with a literal dot.
pub fn starts_with_dot(name: &str) -> (r: bool)
    ensures
        r == spec_starts_with_dot(name@),
{
    if name.unicode_len() == 0 {
        false
    } else {
        name.get_char(0) == '.'
    }
}

} // verus!

verus! {

/// Compares the character range `v[a..b)` with a string slice.
pub fn range_eq_str(v: &Vec<char>, a: usize, b: usize, s: &str) -> (r: bool)
    requires
        a <= b <= v@.len(),
    ensures
        r == (v@.subrange(a as int, b as int) == s@),
{
    let m = s.unicode_len();
    if b - a != m {
        assert(v@.subrange(a as int, b as int).len() != s@.len());
        return false;
    }
    let mut k: usize = 0;
    while k < m
        invariant
            k <= m,
            a <= b <= v@.len(),
            b - a == m,
            m == s@.len(),
            forall|t: int| 0 <= t < k ==> v@.subrange(a as int, b as int)[t] == s@[t],
        decreases m - k,
    {
        proof {
            assert(v@.subrange(a as int, b as int)[k as int] == v@[a + k]);
        }
        if v[a + k] != s.get_char(k) {
            return false;
        }
        k = k + 1;
    }
    assert(v@.subrange(a as int, b as int) =~= s@);
    true
}

/// Compares a whole character vector with a string slice.
pub fn chars_eq_str(v: &Vec<char>, s: &str) -> (r: bool)
    ensures
        r == (v@ == s@),
{
    let n = v.len();
    proof {
        assert(v@.subrange(0, n as int) =~= v@);
    }
    range_eq_str(v, 0, n, s)
}

} // verus!

verus! {

/// Relies on `String`'s `FromIterator` over characters: collecting the
/// characters of the vector yields the string of exactly those characters.
#[verifier::external_body]
pub(crate) fn chars_to_string(v: &Vec<char>) -> (r: String)
    ensures
        r@ == v@,
{
    v.iter().collect()
}

} // verus!

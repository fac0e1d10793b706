//! Splitting a file name at its extension, and at its double extension for
//! names like `example.tar.gz`.
use vstd::prelude::*;

verus! {

/// The position of the last dot of `name` at an index between 1 and `from`,
/// both included; a dot in front of the whole name marks no extension.
pub open spec fn spec_rfind_dot(name: Seq<char>, from: int) -> Option<int>
    decreases from,
{
    if from < 1 {
        None
    } else if name[from] == '.' {
        Some(from)
    } else {
        spec_rfind_dot(name, from - 1)
    }
}

/// The extension of a name: what follows the last dot, if that dot does not
/// open the name itself.
pub open spec fn spec_extension(name: Seq<char>) -> Option<Seq<char>> {
    match spec_rfind_dot(name, name.len() - 1) {
        Some(i) => Some(name.skip(i + 1)),
        None => None,
    }
}

/// The two extensions of a name if both exist: for `foo.tar.gz` the pair of
/// `tar` and `gz`.
pub open spec fn spec_double_extension(name: Seq<char>) -> Option<(Seq<char>, Seq<char>)> {
    match spec_rfind_dot(name, name.len() - 1) {
        Some(i) => match spec_rfind_dot(name, i - 1) {
            Some(j) => Some((name.subrange(j + 1, i), name.skip(i + 1))),
            None => None,
        },
        None => None,
    }
}

/// Finds the last dot of `v` at an index between 1 and `from`.
pub fn rfind_dot(v: &Vec<char>, from: usize) -> (r: Option<usize>)
    requires
        from < v@.len() || v@.len() == 0,
    ensures
        v@.len() == 0 ==> r is None,
        v@.len() > 0 ==> (match r {
            Some(i) => spec_rfind_dot(v@, from as int) == Some(i as int) && 1 <= i <= from,
            None => spec_rfind_dot(v@, from as int) is None,
        }),
{
    if v.len() == 0 {
        return None;
    }
    let mut i: usize = from;
    loop
        invariant
            0 <= i <= from < v@.len(),
            spec_rfind_dot(v@, from as int) == spec_rfind_dot(v@, i as int),
        decreases i,
    {
        if i < 1 {
            return None;
        }
        if v[i] == '.' {
            return Some(i);
        }
        i = i - 1;
    }
}

/// Looking for a dot below `i` sees the same characters in the whole name
/// and in the name cut off at `i`.
pub proof fn lemma_rfind_dot_take(name: Seq<char>, i: int, j: int)
    requires
        0 <= j < i <= name.len(),
    ensures
        spec_rfind_dot(name.take(i), j) == spec_rfind_dot(name, j),
    decreases j,
{
    if j < 1 {
    } else {
        assert(name.take(i)[j] == name[j]);
        if name[j] == '.' {
        } else {
            lemma_rfind_dot_take(name, i, j - 1);
        }
    }
}

} // verus!

verus! {

/// Copies the character range `v[a..b)`.
fn range_chars(v: &Vec<char>, a: usize, b: usize) -> (r: Vec<char>)
    requires
        a <= b <= v@.len(),
    ensures
        r@ == v@.subrange(a as int, b as int),
{
    let mut r: Vec<char> = Vec::new();
    let mut k: usize = a;
    while k < b
        invariant
            a <= k <= b <= v@.len(),
            r@ == v@.subrange(a as int, k as int),
        decreases b - k,
    {
        let c = v[k];
        r.push(c);
        k = k + 1;
        assert(r@ =~= v@.subrange(a as int, k as int));
    }
    r
}

/// Gets the two extensions of a name if both exist, as for `foo.tar.gz`.
pub fn double_extension(name: &str) -> (r: Option<(String, String)>)
    ensures
        r matches Some(pair) ==> (spec_double_extension(name@) == Some((pair.0@, pair.1@))),
        r is None ==> spec_double_extension(name@) is None,
{
    let cs = crate::text::chars_of(name);
    let n = cs.len();
    if n == 0 {
        return None;
    }
    let last = rfind_dot(&cs, n - 1);
    let Some(i) = last else {
        return None;
    };
    let inner = rfind_dot(&cs, i - 1);
    let Some(j) = inner else {
        return None;
    };
    let prefix = range_chars(&cs, j + 1, i);
    let suffix = range_chars(&cs, i + 1, n);
    proof {
        assert(cs@.skip(i + 1) =~= cs@.subrange(i + 1, n as int));
    }
    Some((crate::text::chars_to_string(&prefix), crate::text::chars_to_string(&suffix)))
}

} // verus!

//! The name-comparison method: plain lexicographic order, or natural order
//! where runs of decimal digits compare by their numeric value.
use vstd::prelude::*;
use core::cmp::Ordering;

verus! {

/// How names should be compared.
///
/// Names are compared character by character; `Natural` additionally parses
/// maximal runs of ASCII digits and compares them as unbounded non-negative
/// integers, so `notes-2.txt` sorts before `notes-10.txt`.
#[derive(Debug, PartialEq, Eq, Structural, Clone, Copy)]
pub enum Method {
    /// Compare and sort by value. Like alphabetical sorting, but special
    /// characters are also considered for sorting.
    Naive,
    /// Number strings are parsed and compared within filenames. This means
    /// that `notes-10.txt` comes *after* `notes-2.txt`, not before.
    Natural,
}

/// Is `c` an ASCII decimal digit?
pub open spec fn is_ascii_digit_char(c: char) -> bool {
    48 <= (c as u32) <= 57
}

/// The numeric value of one ASCII digit.
pub open spec fn digit_val(c: char) -> nat {
    ((c as u32) - 48) as nat
}

/// Is every character of `s` an ASCII decimal digit?
pub open spec fn is_digit_seq(s: Seq<char>) -> bool {
    forall|i: int| 0 <= i < s.len() ==> is_ascii_digit_char(#[trigger] s[i])
}

/// The numeric value of a sequence of ASCII digits, read in base ten.
pub open spec fn run_value(s: Seq<char>) -> nat
    decreases s.len(),
{
    if s.len() == 0 {
        0
    } else {
        run_value(s.drop_last()) * 10 + digit_val(s.last())
    }
}

/// The length of the maximal run of ASCII digits at the start of `s`.
pub open spec fn run_len(s: Seq<char>) -> int
    decreases s.len(),
{
    if s.len() == 0 || !is_ascii_digit_char(s[0]) {
        0
    } else {
        1 + run_len(s.skip(1))
    }
}

/// Basic facts about `run_len`: it is a prefix of `s` made of digits, and it
/// is maximal.
pub proof fn lemma_run_len(s: Seq<char>)
    ensures
        0 <= run_len(s) <= s.len(),
        s.len() > 0 && is_ascii_digit_char(s[0]) ==> run_len(s) >= 1,
        forall|k: int| 0 <= k < run_len(s) ==> is_ascii_digit_char(#[trigger] s[k]),
        run_len(s) < s.len() ==> !is_ascii_digit_char(s[run_len(s)]),
    decreases s.len(),
{
    if s.len() == 0 || !is_ascii_digit_char(s[0]) {
    } else {
        lemma_run_len(s.skip(1));
        assert forall|k: int| 0 <= k < run_len(s) implies is_ascii_digit_char(#[trigger] s[k]) by {
            if k > 0 {
                assert(s.skip(1)[k - 1] == s[k]);
            }
        }
        if run_len(s) < s.len() {
            assert(s.skip(1)[run_len(s) - 1] == s[run_len(s)]);
        }
    }
}

/// Lexicographic comparison of two names, character code point by character
/// code point. For UTF-8 encoded names this order coincides with byte order.
pub open spec fn lex_cmp(a: Seq<char>, b: Seq<char>) -> Ordering
    decreases a.len(),
{
    if a.len() == 0 && b.len() == 0 {
        Ordering::Equal
    } else if a.len() == 0 {
        Ordering::Less
    } else if b.len() == 0 {
        Ordering::Greater
    } else if (a[0] as u32) < (b[0] as u32) {
        Ordering::Less
    } else if (b[0] as u32) < (a[0] as u32) {
        Ordering::Greater
    } else {
        lex_cmp(a.skip(1), b.skip(1))
    }
}

/// Natural comparison: characters compare by code point, except that two
/// maximal digit runs compare by their numeric value; equal portions
/// continue the scan, and the name that ends first is the lesser one.
pub open spec fn natural_cmp(a: Seq<char>, b: Seq<char>) -> Ordering
    decreases a.len(),
{
    if a.len() == 0 && b.len() == 0 {
        Ordering::Equal
    } else if a.len() == 0 {
        Ordering::Less
    } else if b.len() == 0 {
        Ordering::Greater
    } else if is_ascii_digit_char(a[0]) && is_ascii_digit_char(b[0]) {
        if run_value(a.take(run_len(a))) < run_value(b.take(run_len(b))) {
            Ordering::Less
        } else if run_value(b.take(run_len(b))) < run_value(a.take(run_len(a))) {
            Ordering::Greater
        } else {
            proof {
                lemma_run_len(a);
                lemma_run_len(b);
            }
            natural_cmp(a.skip(run_len(a)), b.skip(run_len(b)))
        }
    } else if (a[0] as u32) < (b[0] as u32) {
        Ordering::Less
    } else if (b[0] as u32) < (a[0] as u32) {
        Ordering::Greater
    } else {
        natural_cmp(a.skip(1), b.skip(1))
    }
}

/// What a method says about two names.
pub open spec fn method_cmp(m: Method, a: Seq<char>, b: Seq<char>) -> Ordering {
    match m {
        Method::Naive => lex_cmp(a, b),
        Method::Natural => natural_cmp(a, b),
    }
}

/// Ten to the power `n`.
pub open spec fn pow10(n: nat) -> nat
    decreases n,
{
    if n == 0 {
        1
    } else {
        10 * pow10((n - 1) as nat)
    }
}

pub proof fn lemma_pow10_pos(n: nat)
    ensures
        pow10(n) >= 1,
    decreases n,
{
    if n > 0 {
        lemma_pow10_pos((n - 1) as nat);
    }
}

pub proof fn lemma_pow10_mono(m: nat, n: nat)
    requires
        m <= n,
    ensures
        pow10(m) <= pow10(n),
    decreases n,
{
    if m < n {
        lemma_pow10_mono(m, (n - 1) as nat);
        lemma_pow10_pos((n - 1) as nat);
    }
}

/// Reading a digit sequence from the front: the first digit carries a power
/// of ten given by the remaining length.
pub proof fn lemma_run_value_head(s: Seq<char>)
    requires
        s.len() > 0,
    ensures
        run_value(s) == digit_val(s[0]) * pow10((s.len() - 1) as nat) + run_value(s.skip(1)),
    decreases s.len(),
{
    if s.len() == 1 {
        assert(s.drop_last().len() == 0);
        assert(s.skip(1).len() == 0);
        assert(s.last() == s[0]);
        assert(run_value(s.drop_last()) == 0);
        assert(run_value(s.skip(1)) == 0);
        assert(run_value(s) == digit_val(s[0]));
        assert((s.len() - 1) as nat == 0nat);
        assert(pow10((s.len() - 1) as nat) == 1);
    } else {
        let d = s.drop_last();
        assert(d.len() == s.len() - 1);
        lemma_run_value_head(d);
        assert(d.skip(1) =~= s.skip(1).drop_last());
        assert(d[0] == s[0]);
        assert(s.skip(1).last() == s.last());
        let v = digit_val(s[0]);
        let b = run_value(s.skip(1).drop_last());
        let p = pow10((d.len() - 1) as nat);
        assert(run_value(s) == run_value(d) * 10 + digit_val(s.last()));
        assert(run_value(d) == v * p + b);
        assert((v * p + b) * 10 == v * (p * 10) + b * 10) by (nonlinear_arith);
        assert(run_value(s) == v * (p * 10) + b * 10 + digit_val(s.last()));
        assert(p * 10 == pow10((s.len() - 1) as nat));
        assert(run_value(s) == v * pow10((s.len() - 1) as nat) + (b * 10 + digit_val(s.last())));
        assert(run_value(s.skip(1)) == b * 10 + digit_val(s.skip(1).last()));
        assert(run_value(s.skip(1)) == b * 10 + digit_val(s.last()));
    }
}

/// The value of a digit sequence is below ten to its length.
pub proof fn lemma_run_value_upper(s: Seq<char>)
    requires
        is_digit_seq(s),
    ensures
        run_value(s) < pow10(s.len() as nat),
    decreases s.len(),
{
    if s.len() == 0 {
    } else {
        let d = s.drop_last();
        assert(is_digit_seq(d)) by {
            assert(forall|i: int| 0 <= i < d.len() ==> d[i] == s[i]);
        }
        lemma_run_value_upper(d);
        assert(digit_val(s.last()) <= 9);
        assert(run_value(d) * 10 <= (pow10(d.len() as nat) - 1) * 10) by (nonlinear_arith)
            requires
                run_value(d) <= pow10(d.len() as nat) - 1,
        ;
    }
}

/// A digit sequence that does not start with a zero is at least ten to the
/// power of one less than its length.
pub proof fn lemma_run_value_lower(s: Seq<char>)
    requires
        is_digit_seq(s),
        s.len() > 0,
        s[0] != '0',
    ensures
        run_value(s) >= pow10((s.len() - 1) as nat),
{
    lemma_run_value_head(s);
    assert(digit_val(s[0]) >= 1) by {
        assert(is_ascii_digit_char(s[0]));
        assert(('0' as u32) == 48);
        vstd::utf8::char_u32_cast(s[0], s[0] as u32);
        vstd::utf8::char_u32_cast('0', 48);
        assert((s[0] as u32) != 48);
    }
    let p = pow10((s.len() - 1) as nat);
    lemma_pow10_pos((s.len() - 1) as nat);
    assert(digit_val(s[0]) * p >= p) by (nonlinear_arith)
        requires
            digit_val(s[0]) >= 1,
            p >= 1,
    ;
}

/// Leading zeros do not change the numeric value of a digit sequence.
pub proof fn lemma_run_value_strip_zeros(s: Seq<char>, z: int)
    requires
        0 <= z <= s.len(),
        forall|k: int| 0 <= k < z ==> s[k] == '0',
    ensures
        run_value(s) == run_value(s.skip(z)),
    decreases z,
{
    if z > 0 {
        lemma_run_value_head(s);
        assert(digit_val(s[0]) == 0) by {
            assert(s[0] == '0');
            assert(('0' as u32) == 48);
        }
        assert(digit_val(s[0]) * pow10((s.len() - 1) as nat) == 0) by (nonlinear_arith)
            requires
                digit_val(s[0]) == 0,
        ;
        let t = s.skip(1);
        assert(forall|k: int| 0 <= k < z - 1 ==> t[k] == s[k + 1] && t[k] == '0');
        lemma_run_value_strip_zeros(t, z - 1);
        assert(t.skip(z - 1) =~= s.skip(z));
    } else {
        assert(s.skip(0) =~= s);
    }
}

/// Two digit sequences of equal length compare numerically like they compare
/// lexicographically at the first position where they differ.
pub proof fn lemma_run_value_lex(a: Seq<char>, b: Seq<char>, k: int)
    requires
        is_digit_seq(a),
        is_digit_seq(b),
        a.len() == b.len(),
        0 <= k < a.len(),
        forall|m: int| 0 <= m < k ==> a[m] == b[m],
        (a[k] as u32) < (b[k] as u32),
    ensures
        run_value(a) < run_value(b),
    decreases k,
{
    lemma_run_value_head(a);
    lemma_run_value_head(b);
    let p = pow10((a.len() - 1) as nat);
    if k == 0 {
        lemma_run_value_upper(a.skip(1));
        assert(is_digit_seq(a.skip(1))) by {
            assert(forall|i: int| 0 <= i < a.skip(1).len() ==> a.skip(1)[i] == a[i + 1]);
        }
        lemma_run_value_upper(a.skip(1));
        assert(digit_val(a[0]) + 1 <= digit_val(b[0]));
        assert(digit_val(a[0]) * p + pow10(a.skip(1).len() as nat) <= digit_val(b[0]) * p)
            by (nonlinear_arith)
            requires
                digit_val(a[0]) + 1 <= digit_val(b[0]),
                pow10(a.skip(1).len() as nat) == p,
        ;
        assert(run_value(a.skip(1)) < pow10(a.skip(1).len() as nat));
    } else {
        assert(is_digit_seq(a.skip(1)) && is_digit_seq(b.skip(1))) by {
            assert(forall|i: int| 0 <= i < a.skip(1).len() ==> a.skip(1)[i] == a[i + 1]);
            assert(forall|i: int| 0 <= i < b.skip(1).len() ==> b.skip(1)[i] == b[i + 1]);
        }
        assert(forall|m: int| 0 <= m < k - 1 ==> a.skip(1)[m] == b.skip(1)[m]) by {
            assert(forall|m: int| 0 <= m < k - 1 ==> a.skip(1)[m] == a[m + 1]);
            assert(forall|m: int| 0 <= m < k - 1 ==> b.skip(1)[m] == b[m + 1]);
        }
        assert(a.skip(1)[k - 1] == a[k]);
        assert(b.skip(1)[k - 1] == b[k]);
        lemma_run_value_lex(a.skip(1), b.skip(1), k - 1);
        assert(a[0] == b[0]);
    }
}

/// A shorter digit sequence without leading zeros is numerically smaller
/// than a longer one without leading zeros.
pub proof fn lemma_run_value_shorter(a: Seq<char>, b: Seq<char>)
    requires
        is_digit_seq(a),
        is_digit_seq(b),
        a.len() < b.len(),
        b.len() > 0,
        b[0] != '0',
    ensures
        run_value(a) < run_value(b),
{
    lemma_run_value_upper(a);
    lemma_run_value_lower(b);
    lemma_pow10_mono(a.len() as nat, (b.len() - 1) as nat);
}

} // verus!

verus! {

/// `run_len` is characterized by its two defining properties: a digit
/// prefix of that length, followed by the end or by a non-digit.
pub proof fn lemma_run_len_is(s: Seq<char>, n: int)
    requires
        0 <= n <= s.len(),
        forall|k: int| 0 <= k < n ==> is_ascii_digit_char(#[trigger] s[k]),
        n < s.len() ==> !is_ascii_digit_char(s[n]),
    ensures
        run_len(s) == n,
    decreases n,
{
    if n == 0 {
    } else {
        let t = s.skip(1);
        assert(forall|k: int| 0 <= k < n - 1 ==> t[k] == s[k + 1]);
        if n - 1 < t.len() {
            assert(t[n - 1] == s[n]);
        }
        lemma_run_len_is(t, n - 1);
    }
}

/// Checks whether a character is an ASCII decimal digit.
pub fn is_digit(c: char) -> (r: bool)
    ensures
        r == is_ascii_digit_char(c),
{
    let u: u32 = c as u32;
    48 <= u && u <= 57
}

/// Finds the end of the maximal digit run of `v` that starts at `i`.
fn run_end(v: &Vec<char>, i: usize) -> (e: usize)
    requires
        i <= v@.len(),
    ensures
        i <= e <= v@.len(),
        e - i == run_len(v@.skip(i as int)),
        forall|k: int| i <= k < e ==> is_ascii_digit_char(#[trigger] v@[k]),
{
    let n = v.len();
    let mut e: usize = i;
    while e < n && is_digit(v[e])
        invariant
            i <= e <= n,
            n == v@.len(),
            forall|k: int| i <= k < e ==> is_ascii_digit_char(#[trigger] v@[k]),
        decreases n - e,
    {
        e = e + 1;
    }
    proof {
        let s = v@.skip(i as int);
        assert(forall|k: int| 0 <= k < e - i ==> s[k] == v@[k + i]);
        if e < n {
            assert(s[e - i] == v@[e as int]);
        }
        lemma_run_len_is(s, e - i);
    }
    e
}

/// Compares the numeric values of two digit runs, `a[ai..ae)` and
/// `b[bi..be)`: leading zeros are skipped, then a longer remainder is the
/// larger number, and equal-length remainders compare lexicographically.
fn cmp_digit_runs(a: &Vec<char>, ai: usize, ae: usize, b: &Vec<char>, bi: usize, be: usize) -> (r:
    Ordering)
    requires
        ai <= ae <= a@.len(),
        bi <= be <= b@.len(),
        forall|k: int| ai <= k < ae ==> is_ascii_digit_char(#[trigger] a@[k]),
        forall|k: int| bi <= k < be ==> is_ascii_digit_char(#[trigger] b@[k]),
    ensures
        r == Ordering::Less <==> run_value(a@.subrange(ai as int, ae as int)) < run_value(
            b@.subrange(bi as int, be as int),
        ),
        r == Ordering::Greater <==> run_value(a@.subrange(ai as int, ae as int)) > run_value(
            b@.subrange(bi as int, be as int),
        ),
        r == Ordering::Equal <==> run_value(a@.subrange(ai as int, ae as int)) == run_value(
            b@.subrange(bi as int, be as int),
        ),
{
    let ghost ra = a@.subrange(ai as int, ae as int);
    let ghost rb = b@.subrange(bi as int, be as int);
    proof {
        assert(is_digit_seq(ra)) by {
            assert(forall|k: int| 0 <= k < ra.len() ==> ra[k] == a@[k + ai]);
        }
        assert(is_digit_seq(rb)) by {
            assert(forall|k: int| 0 <= k < rb.len() ==> rb[k] == b@[k + bi]);
        }
    }
    let mut ax: usize = ai;
    while ax < ae && a[ax] as u32 == 48
        invariant
            ai <= ax <= ae <= a@.len(),
            forall|k: int| ai <= k < ax ==> (a@[k] as u32) == 48,
        decreases ae - ax,
    {
        ax = ax + 1;
    }
    let mut bx: usize = bi;
    while bx < be && b[bx] as u32 == 48
        invariant
            bi <= bx <= be <= b@.len(),
            forall|k: int| bi <= k < bx ==> (b@[k] as u32) == 48,
        decreases be - bx,
    {
        bx = bx + 1;
    }
    let ghost sa = a@.subrange(ax as int, ae as int);
    let ghost sb = b@.subrange(bx as int, be as int);
    proof {
        assert(forall|k: int| 0 <= k < ax - ai ==> ra[k] == a@[k + ai]);
        assert(forall|k: int| 0 <= k < ax - ai ==> #[trigger] ra[k] as u32 == 48);
        assert(forall|k: int| 0 <= k < ax - ai ==> ra[k] == '0') by {
            vstd::utf8::char_u32_cast('0', 48);
            assert forall|k: int| 0 <= k < ax - ai implies ra[k] == '0' by {
                vstd::utf8::char_u32_cast(ra[k], ra[k] as u32);
            }
        }
        lemma_run_value_strip_zeros(ra, ax - ai);
        assert(ra.skip(ax - ai) =~= sa);
        assert(is_digit_seq(sa)) by {
            assert(forall|k: int| 0 <= k < sa.len() ==> sa[k] == a@[k + ax]);
        }
        assert(forall|k: int| 0 <= k < bx - bi ==> rb[k] == b@[k + bi]);
        assert(forall|k: int| 0 <= k < bx - bi ==> #[trigger] rb[k] as u32 == 48);
        assert(forall|k: int| 0 <= k < bx - bi ==> rb[k] == '0') by {
            vstd::utf8::char_u32_cast('0', 48);
            assert forall|k: int| 0 <= k < bx - bi implies rb[k] == '0' by {
                vstd::utf8::char_u32_cast(rb[k], rb[k] as u32);
            }
        }
        lemma_run_value_strip_zeros(rb, bx - bi);
        assert(rb.skip(bx - bi) =~= sb);
        assert(is_digit_seq(sb)) by {
            assert(forall|k: int| 0 <= k < sb.len() ==> sb[k] == b@[k + bx]);
        }
        if ax < ae {
            assert(sa[0] == a@[ax as int]);
            assert((sa[0] as u32) != 48);
            vstd::utf8::char_u32_cast('0', 48);
            assert(sa[0] != '0');
        }
        if bx < be {
            assert(sb[0] == b@[bx as int]);
            assert((sb[0] as u32) != 48);
            vstd::utf8::char_u32_cast('0', 48);
            assert(sb[0] != '0');
        }
    }
    proof {
        assert(run_value(ra) == run_value(sa));
        assert(run_value(rb) == run_value(sb));
    }
    let la: usize = ae - ax;
    let lb: usize = be - bx;
    if la < lb {
        proof {
            lemma_run_value_shorter(sa, sb);
            assert(run_value(ra) < run_value(rb));
        }
        return Ordering::Less;
    }
    if lb < la {
        proof {
            lemma_run_value_shorter(sb, sa);
            assert(run_value(rb) < run_value(ra));
        }
        return Ordering::Greater;
    }
    let mut k: usize = 0;
    while k < la
        invariant
            0 <= k <= la,
            la == lb,
            ai <= ax <= ae <= a@.len(),
            bi <= bx <= be <= b@.len(),
            la == ae - ax,
            lb == be - bx,
            sa == a@.subrange(ax as int, ae as int),
            sb == b@.subrange(bx as int, be as int),
            is_digit_seq(sa),
            is_digit_seq(sb),
            run_value(a@.subrange(ai as int, ae as int)) == run_value(sa),
            run_value(b@.subrange(bi as int, be as int)) == run_value(sb),
            forall|m: int| 0 <= m < k ==> sa[m] == sb[m],
        decreases la - k,
    {
        let ca: u32 = a[ax + k] as u32;
        let cb: u32 = b[bx + k] as u32;
        proof {
            assert(sa[k as int] == a@[ax + k]);
            assert(sb[k as int] == b@[bx + k]);
        }
        if ca < cb {
            proof {
                lemma_run_value_lex(sa, sb, k as int);
            }
            return Ordering::Less;
        }
        if cb < ca {
            proof {
                lemma_run_value_lex(sb, sa, k as int);
            }
            return Ordering::Greater;
        }
        proof {
            vstd::utf8::char_u32_cast(sa[k as int], ca);
            vstd::utf8::char_u32_cast(sb[k as int], cb);
        }
        k = k + 1;
    }
    proof {
        assert(sa =~= sb);
    }
    Ordering::Equal
}

} // verus!

use crate::text::chars_of;
use crate::text::str_eq;

verus! {

/// Compares two names, character by character, in plain lexicographic order.
fn lex_cmp_chars(a: &Vec<char>, b: &Vec<char>) -> (r: Ordering)
    ensures
        r == lex_cmp(a@, b@),
{
    let n = a.len();
    let m = b.len();
    let mut i: usize = 0;
    let mut j: usize = 0;
    proof {
        assert(a@.skip(0) =~= a@);
        assert(b@.skip(0) =~= b@);
    }
    loop
        invariant
            i <= n,
            j <= m,
            n == a@.len(),
            m == b@.len(),
            lex_cmp(a@, b@) == lex_cmp(a@.skip(i as int), b@.skip(j as int)),
        decreases n - i,
    {
        let ghost sa = a@.skip(i as int);
        let ghost sb = b@.skip(j as int);
        if i == n && j == m {
            assert(lex_cmp(sa, sb) == Ordering::Equal);
            return Ordering::Equal;
        }
        if i == n {
            return Ordering::Less;
        }
        if j == m {
            return Ordering::Greater;
        }
        proof {
            assert(sa[0] == a@[i as int]);
            assert(sb[0] == b@[j as int]);
        }
        let ca: u32 = a[i] as u32;
        let cb: u32 = b[j] as u32;
        if ca < cb {
            return Ordering::Less;
        }
        if cb < ca {
            return Ordering::Greater;
        }
        proof {
            assert(sa.skip(1) =~= a@.skip(i as int + 1));
            assert(sb.skip(1) =~= b@.skip(j as int + 1));
        }
        i = i + 1;
        j = j + 1;
    }
}

/// Compares two names in natural order: digit runs compare numerically,
/// everything else compares by code point.
fn natural_cmp_chars(a: &Vec<char>, b: &Vec<char>) -> (r: Ordering)
    ensures
        r == natural_cmp(a@, b@),
{
    let n = a.len();
    let m = b.len();
    let mut i: usize = 0;
    let mut j: usize = 0;
    proof {
        assert(a@.skip(0) =~= a@);
        assert(b@.skip(0) =~= b@);
    }
    loop
        invariant
            i <= n,
            j <= m,
            n == a@.len(),
            m == b@.len(),
            natural_cmp(a@, b@) == natural_cmp(a@.skip(i as int), b@.skip(j as int)),
        decreases n - i,
    {
        let ghost sa = a@.skip(i as int);
        let ghost sb = b@.skip(j as int);
        if i == n && j == m {
            assert(natural_cmp(sa, sb) == Ordering::Equal);
            return Ordering::Equal;
        }
        if i == n {
            return Ordering::Less;
        }
        if j == m {
            return Ordering::Greater;
        }
        proof {
            assert(sa[0] == a@[i as int]);
            assert(sb[0] == b@[j as int]);
        }
        let da = is_digit(a[i]);
        let db = is_digit(b[j]);
        if da && db {
            let ae = run_end(a, i);
            let be = run_end(b, j);
            proof {
                assert(sa.take(run_len(sa)) =~= a@.subrange(i as int, ae as int));
                assert(sb.take(run_len(sb)) =~= b@.subrange(j as int, be as int));
            }
            let c = cmp_digit_runs(a, i, ae, b, j, be);
            match c {
                Ordering::Less => {
                    assert(natural_cmp(sa, sb) == Ordering::Less);
                    return Ordering::Less;
                },
                Ordering::Greater => {
                    assert(natural_cmp(sa, sb) == Ordering::Greater);
                    return Ordering::Greater;
                },
                Ordering::Equal => {
                    proof {
                        lemma_run_len(sa);
                        lemma_run_len(sb);
                        assert(sa.skip(run_len(sa)) =~= a@.skip(ae as int));
                        assert(sb.skip(run_len(sb)) =~= b@.skip(be as int));
                        assert(natural_cmp(sa, sb) == natural_cmp(
                            a@.skip(ae as int),
                            b@.skip(be as int),
                        ));
                    }
                    i = ae;
                    j = be;
                },
            }
        } else {
            let ca: u32 = a[i] as u32;
            let cb: u32 = b[j] as u32;
            if ca < cb {
                return Ordering::Less;
            }
            if cb < ca {
                return Ordering::Greater;
            }
            proof {
                assert(sa.skip(1) =~= a@.skip(i as int + 1));
                assert(sb.skip(1) =~= b@.skip(j as int + 1));
            }
            i = i + 1;
            j = j + 1;
        }
    }
}

impl Method {
    /// Compares two names with this method.
    pub fn cmp(&self, left: &str, right: &str) -> (r: Ordering)
        ensures
            r == method_cmp(*self, left@, right@),
    {
        let lv = chars_of(left);
        let rv = chars_of(right);
        self.cmp_chars(&lv, &rv)
    }

    /// Compares two names, already split into characters, with this method.
    pub fn cmp_chars(&self, left: &Vec<char>, right: &Vec<char>) -> (r: Ordering)
        ensures
            r == method_cmp(*self, left@, right@),
    {
        match self {
            Method::Naive => lex_cmp_chars(left, right),
            Method::Natural => natural_cmp_chars(left, right),
        }
    }

    /// Reads a method from its configured name: `naive` or `natural`.
    pub fn from_string(s: &str) -> (r: Option<Method>)
        ensures
            r == (if s@ == "naive"@ {
                Some(Method::Naive)
            } else if s@ == "natural"@ {
                Some(Method::Natural)
            } else {
                None::<Method>
            }),
    {
        if str_eq(s, "naive") {
            Some(Method::Naive)
        } else if str_eq(s, "natural") {
            Some(Method::Natural)
        } else {
            None
        }
    }
}

impl Default for Method {
    /// The default method is the naive one.
    fn default() -> (r: Self)
        ensures
            r == Method::Naive,
    {
        Method::Naive
    }
}

} // verus!

verus! {

/// Ten to a sum of powers is the product of the powers.
pub proof fn lemma_pow10_add(a: nat, b: nat)
    ensures
        pow10(a + b) == pow10(a) * pow10(b),
    decreases a,
{
    if a == 0 {
        assert(pow10(b) == 1 * pow10(b)) by (nonlinear_arith);
    } else {
        lemma_pow10_add((a - 1) as nat, b);
        assert(pow10((a - 1) as nat + b) == pow10((a - 1) as nat) * pow10(b));
        assert(pow10(a + b) == 10 * pow10(((a + b) - 1) as nat));
        assert(((a + b) - 1) as nat == (a - 1) as nat + b);
        assert(10 * (pow10((a - 1) as nat) * pow10(b)) == (10 * pow10((a - 1) as nat)) * pow10(b))
            by (nonlinear_arith);
    }
}

/// The value of two digit sequences read together: the front part shifted
/// by the length of the back part, plus the back part.
pub proof fn lemma_run_value_concat(x: Seq<char>, z: Seq<char>)
    ensures
        run_value(x + z) == run_value(x) * pow10(z.len() as nat) + run_value(z),
    decreases z.len(),
{
    if z.len() == 0 {
        assert(x + z =~= x);
        assert(run_value(x) * 1 == run_value(x)) by (nonlinear_arith);
    } else {
        let w = x + z;
        assert(w.len() == x.len() + z.len());
        assert(w.drop_last() =~= x + z.drop_last());
        assert(w.last() == z.last());
        lemma_run_value_concat(x, z.drop_last());
        let zp = pow10((z.len() - 1) as nat);
        assert(run_value(w) == (run_value(x) * zp + run_value(z.drop_last())) * 10 + digit_val(
            z.last(),
        ));
        assert((run_value(x) * zp + run_value(z.drop_last())) * 10 == run_value(x) * (zp * 10)
            + run_value(z.drop_last()) * 10) by (nonlinear_arith);
        assert(zp * 10 == pow10(z.len() as nat));
        assert(run_value(z) == run_value(z.drop_last()) * 10 + digit_val(z.last()));
    }
}

/// A canonical decimal is at most as long as any canonical decimal of a
/// larger value.
pub proof fn lemma_canonical_len_le(da: Seq<char>, db: Seq<char>)
    requires
        is_digit_seq(da),
        is_digit_seq(db),
        da.len() > 0,
        db.len() > 0,
        da.len() > 1 ==> da[0] != '0',
        run_value(da) < run_value(db),
    ensures
        da.len() <= db.len(),
{
    if da.len() > db.len() {
        lemma_run_value_upper(db);
        lemma_pow10_mono(db.len() as nat, (da.len() - 1) as nat);
        if da.len() > 1 {
            lemma_run_value_lower(da);
        }
    }
}

/// Around a shared digit prefix and a shared digit suffix, the embedded
/// number with the smaller value makes the smaller combined number.
pub proof fn lemma_merged_value_lt(front: Seq<char>, da: Seq<char>, db: Seq<char>, sd: Seq<char>)
    requires
        is_digit_seq(front),
        is_digit_seq(da),
        is_digit_seq(db),
        is_digit_seq(sd),
        da.len() > 0,
        db.len() > 0,
        da.len() > 1 ==> da[0] != '0',
        run_value(da) < run_value(db),
    ensures
        run_value(front + da + sd) < run_value(front + db + sd),
{
    let k = sd.len() as nat;
    let la = da.len() as nat;
    let lb = db.len() as nat;
    let fv = run_value(front);
    let av = run_value(da);
    let bv = run_value(db);
    let sv = run_value(sd);
    lemma_canonical_len_le(da, db);
    assert(front + da + sd =~= front + (da + sd));
    assert(front + db + sd =~= front + (db + sd));
    lemma_run_value_concat(front, da + sd);
    lemma_run_value_concat(front, db + sd);
    lemma_run_value_concat(da, sd);
    lemma_run_value_concat(db, sd);
    lemma_pow10_add(la, k);
    lemma_pow10_add(lb, k);
    assert(run_value(front + da + sd) == fv * (pow10(la) * pow10(k)) + (av * pow10(k) + sv));
    assert(run_value(front + db + sd) == fv * (pow10(lb) * pow10(k)) + (bv * pow10(k) + sv));
    lemma_pow10_pos(k);
    lemma_pow10_pos(la);
    if la == lb {
        assert(av * pow10(k) < bv * pow10(k)) by (nonlinear_arith)
            requires
                av < bv,
                pow10(k) >= 1,
        ;
    } else {
        lemma_run_value_upper(da);
        lemma_run_value_upper(sd);
        assert(av * pow10(k) + sv < pow10(la) * pow10(k)) by (nonlinear_arith)
            requires
                av < pow10(la),
                sv < pow10(k),
                pow10(k) >= 1,
        ;
        if fv == 0 {
            assert(fv * (pow10(la) * pow10(k)) == 0) by (nonlinear_arith)
                requires
                    fv == 0,
            ;
            assert(fv * (pow10(lb) * pow10(k)) == 0) by (nonlinear_arith)
                requires
                    fv == 0,
            ;
            assert(av * pow10(k) < bv * pow10(k)) by (nonlinear_arith)
                requires
                    av < bv,
                    pow10(k) >= 1,
            ;
        } else {
            lemma_pow10_mono(la + 1, lb);
            lemma_pow10_add(la + 1, k);
            lemma_pow10_add(la, 1);
            assert(pow10(0nat) == 1);
            assert(pow10(1nat) == 10 * pow10(0nat));
            assert(pow10(1nat) == 10);
            assert(fv * (pow10(la) * pow10(k)) + (av * pow10(k) + sv) < (fv + 1) * (pow10(la)
                * pow10(k))) by (nonlinear_arith)
                requires
                    av * pow10(k) + sv < pow10(la) * pow10(k),
            ;
            assert((fv + 1) * (pow10(la) * pow10(k)) <= fv * (pow10(la + 1) * pow10(k)))
                by (nonlinear_arith)
                requires
                    fv >= 1,
                    pow10(la + 1) == pow10(la) * 10,
                    pow10(la) >= 1,
                    pow10(k) >= 1,
            ;
            assert(fv * (pow10(la + 1) * pow10(k)) <= fv * (pow10(lb) * pow10(k)))
                by (nonlinear_arith)
                requires
                    pow10(la + 1) <= pow10(lb),
                    pow10(k) >= 1,
                    fv >= 0,
            ;
        }
    }
}

} // verus!

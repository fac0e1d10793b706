//! Case-insensitive glob matching for icon and color rules.
use vstd::prelude::*;

verus! {

/// Whether a glob pattern matches a name under case folding: a function of
/// the two strings alone. A malformed pattern matches nothing.
pub uninterp spec fn spec_glob_match_ci(pattern: Seq<char>, name: Seq<char>) -> bool;

/// Relies on `glob::Pattern::new` and `glob::Pattern::matches_with`, with
/// case folding on and neither separators nor leading dots required to be
/// literal: whether the pattern matches depends on the two strings alone,
/// and a pattern that does not parse matches nothing.
#[verifier::external_body]
pub(crate) fn glob_match_ci(pattern: &str, name: &str) -> (r: bool)
    ensures
        r == spec_glob_match_ci(pattern@, name@),
{
    let options = glob::MatchOptions {
        case_sensitive: false,
        require_literal_separator: false,
        require_literal_leading_dot: false,
    };
    match glob::Pattern::new(pattern) {
        Ok(compiled) => compiled.matches_with(name, options),
        Err(_) => false,
    }
}

} // verus!

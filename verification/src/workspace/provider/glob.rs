//! Glob patterns as `globset` matches them.

use vstd::prelude::*;

verus! {

/// Whether `globset` accepts the pattern and can build a matcher of it.
pub uninterp spec fn glob_valid(pattern: Seq<char>) -> bool;

/// Whether the pattern, of which `globset` can build a matcher, matches the
/// path.
pub uninterp spec fn glob_matches(pattern: Seq<char>, path: Seq<char>) -> bool;

/// Wraps `Glob::new` and `GlobSetBuilder::build`: whether the pattern is
/// accepted and the set of this one glob can be built. Both return an error
/// where they cannot do their part; neither is unwrapped.
#[verifier::external_body]
pub(crate) fn glob_compiles(pattern: &str) -> (r: bool)
    ensures
        r == glob_valid(pattern@),
{
    match globset::Glob::new(pattern) {
        Ok(glob) => globset::GlobSetBuilder::new().add(glob).build().is_ok(),
        Err(_) => false,
    }
}

/// Wraps `GlobSet::is_match`, on the set that `GlobSetBuilder::build` makes
/// of the one glob that `Glob::new` makes of the pattern. Where the set
/// cannot be built nothing matches.
#[verifier::external_body]
pub(crate) fn glob_is_match(pattern: &str, path: &str) -> (r: bool)
    requires
        glob_valid(pattern@),
    ensures
        r == glob_matches(pattern@, path@),
{
    match globset::Glob::new(pattern) {
        Ok(glob) => match globset::GlobSetBuilder::new().add(glob).build() {
            Ok(set) => set.is_match(path),
            Err(_) => false,
        },
        Err(_) => false,
    }
}

} // verus!

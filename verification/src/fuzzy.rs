//! The subsequence fuzzy scorer, at the boundary to the `fuzzy_matcher`
//! crate.
//!
//! The raw score of a (choice, pattern) pair is named by `fuzzy_raw`; what
//! the library proves about match selection is stated over that name, and
//! score normalization downstream is exact integer arithmetic on it.

use vstd::prelude::*;
use fuzzy_matcher::FuzzyMatcher;

verus! {

#[verifier::external_type_specification]
#[verifier::external_body]
pub struct ExSkimMatcherV2(fuzzy_matcher::skim::SkimMatcherV2);

/// The raw alignment score that the default-configured skim matcher returns
/// for a (choice, pattern) pair, or `None` when the pattern does not match.
pub uninterp spec fn fuzzy_raw(choice: Seq<char>, pattern: Seq<char>) -> Option<i64>;

/// A fuzzy scorer in the matcher crate's default configuration. The field is
/// private and `new` is the only constructor, so every instance scores
/// identically.
pub struct FuzzyScorer {
    inner: fuzzy_matcher::skim::SkimMatcherV2,
}

impl FuzzyScorer {
    /// Relies on `SkimMatcherV2::default`: it builds the matcher in its
    /// default configuration (smart case, no element limit, default score
    /// weights).
    #[verifier::external_body]
    pub fn new() -> (r: FuzzyScorer) {
        FuzzyScorer { inner: fuzzy_matcher::skim::SkimMatcherV2::default() }
    }

    /// Relies on `SkimMatcherV2::fuzzy_match`: under the fixed default
    /// configuration its result is a deterministic function of the choice
    /// and pattern characters alone (the thread-local score matrices it
    /// keeps are cleared on every call and only cache allocations).
    #[verifier::external_body]
    pub fn score(&self, choice: &str, pattern: &str) -> (r: Option<i64>)
        ensures
            r == fuzzy_raw(choice@, pattern@),
    {
        self.inner.fuzzy_match(choice, pattern)
    }
}

} // verus!

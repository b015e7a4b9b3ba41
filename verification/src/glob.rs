//! Filtering labels by a glob pattern, with `globset`.

use vstd::prelude::*;
use vstd::string::*;

verus! {

/// A compiled set of globs, as `globset` holds it: carried through opaquely.
#[verifier::external_type_specification]
#[verifier::external_body]
pub struct ExGlobSet(globset::GlobSet);

/// Whether `globset::Glob::new` accepts a pattern and `globset::GlobSet::new`
/// then compiles it.
pub uninterp spec fn glob_accepts(pattern: Seq<char>) -> bool;

/// Whether the set compiled from a pattern (`GlobSet::is_match`) matches a
/// text taken as a Unix path.
pub uninterp spec fn glob_matches(pattern: Seq<char>, text: Seq<char>) -> bool;

/// The longest pattern a filter is made from. `GlobSet::new` unwraps the
/// building of an Aho-Corasick automaton for the literal part of a pattern,
/// which fails only past about 2^31 states; a pattern of at most 2^28
/// characters has at most 2^30 bytes, far below that.
pub const GLOB_MAX_CHARS: usize = 0x1000_0000;

/// A glob pattern and its compiled set.
pub struct LabelFilter {
    pattern: String,
    set: globset::GlobSet,
}

impl LabelFilter {
    /// The pattern the filter was compiled from.
    pub closed spec fn pattern(&self) -> Seq<char> {
        self.pattern@
    }

    /// `globset::Glob::new(pattern)`, then `globset::GlobSet::new` on that
    /// one glob: a filter when both succeed. Which patterns they accept is
    /// named, not stated; both return an error, and do not panic, on a
    /// pattern that is not a glob or whose regex is over the size limit.
    #[verifier::external_body]
    pub(crate) fn new(pattern: &str) -> (r: Option<LabelFilter>)
        requires
            pattern@.len() <= GLOB_MAX_CHARS,
        ensures
            r is Some <==> glob_accepts(pattern@),
            r matches Some(f) ==> f.pattern() == pattern@,
    {
        match globset::Glob::new(pattern) {
            Ok(g) => match globset::GlobSet::new([g]) {
                Ok(set) => Some(LabelFilter { pattern: pattern.to_string(), set }),
                Err(_) => None,
            },
            Err(_) => None,
        }
    }

    /// `GlobSet::is_match`: whether the pattern matches `text` (what
    /// matches is named, not stated).
    #[verifier::external_body]
    pub(crate) fn is_match(&self, text: &str) -> (r: bool)
        ensures
            r == glob_matches(self.pattern(), text@),
    {
        self.set.is_match(text)
    }
}

} // verus!

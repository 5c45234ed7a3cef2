//! Glob patterns, compiled and matched by the `globset` crate.
use vstd::prelude::*;

verus! {

#[verifier::external_type_specification]
#[verifier::external_body]
pub struct ExGlobSet(globset::GlobSet);

#[verifier::external_type_specification]
#[verifier::external_body]
pub struct ExGlobError(globset::Error);

/// The longest pattern, in characters, that is compiled. globset turns each
/// level of `{...}` nesting into a level of recursion, and it panics instead
/// of returning an error on a literal too large for its string searcher; a
/// pattern this short nests at most a few hundred levels and holds no such
/// literal.
pub const MAX_PATTERN_LEN: usize = 1024;

/// Whether `globset::Glob::new` accepts the pattern and a `globset::GlobSet`
/// builds from it alone.
pub uninterp spec fn glob_valid(pattern: Seq<char>) -> bool;

/// Whether the set built from the single pattern `pattern` accepts `path`.
/// Patterns are read with globset's default options, which depend on the
/// target: on Windows a backslash is a separator, elsewhere an escape.
pub uninterp spec fn glob_matches(pattern: Seq<char>, path: Seq<char>) -> bool;

/// A compiled glob together with the pattern it was compiled from.
///
/// Both fields are private to this module, so every value comes out of
/// `compile`, and the matcher always belongs to the pattern.
pub struct PatternMatcher {
    pattern: String,
    set: globset::GlobSet,
}

impl PatternMatcher {
    /// The pattern the matcher was compiled from.
    pub closed spec fn pattern(&self) -> Seq<char> {
        self.pattern@
    }

    /// Relies on `globset::Glob::new`, which parses the pattern, and on
    /// `globset::GlobSetBuilder::build`, which compiles it and returns an
    /// error where the compiled form is too large or too deeply nested.
    #[verifier::external_body]
    pub(crate) fn compile(pattern: &str) -> (r: Result<PatternMatcher, globset::Error>)
        requires
            pattern@.len() <= MAX_PATTERN_LEN,
        ensures
            r is Ok <==> glob_valid(pattern@),
            r is Ok ==> r->Ok_0.pattern() == pattern@,
    {
        let glob = globset::Glob::new(pattern)?;
        let mut builder = globset::GlobSetBuilder::new();
        builder.add(glob);
        let set = builder.build()?;
        Ok(PatternMatcher { pattern: pattern.to_string(), set })
    }

    /// Relies on `globset::GlobSet::is_match`: whether the path matches
    /// depends on the pattern and the path alone.
    #[verifier::external_body]
    pub(crate) fn is_match(&self, path: &str) -> (r: bool)
        ensures
            r == glob_matches(self.pattern(), path@),
    {
        self.set.is_match(path)
    }

    /// The pattern the matcher was compiled from.
    pub fn glob_pat(&self) -> (r: &str)
        ensures
            r@ == self.pattern(),
    {
        self.pattern.as_str()
    }
}

} // verus!

//! Case-insensitive regular expressions, compiled and run by the `regex` crate.

use vstd::prelude::*;
use crate::text::contains_seq;

verus! {

/// The message `regex::RegexBuilder::build` gives when `pattern`, compiled
/// case-insensitively, is rejected; none when it compiles.
pub uninterp spec fn ci_regex_error(pattern: Seq<char>) -> Option<Seq<char>>;

/// The text of the leftmost-first match that `regex::Regex::find` reports
/// for the case-insensitive compilation of `pattern` searched in `text`.
pub uninterp spec fn ci_regex_match(pattern: Seq<char>, text: Seq<char>) -> Option<Seq<char>>;

/// The search outcome of a pattern on a text: the compiler's message, or
/// the match if there is one.
pub open spec fn ci_search(pattern: Seq<char>, text: Seq<char>) -> Result<Option<Seq<char>>, Seq<char>> {
    match ci_regex_error(pattern) {
        Some(e) => Err(e),
        None => Ok(ci_regex_match(pattern, text)),
    }
}

/// `regex::Regex`, held opaquely by a compiled pattern; its behaviour is
/// stated through the names above.
#[verifier::external_type_specification]
#[verifier::external_body]
pub struct ExRegex(regex::Regex);

/// A case-insensitive regular expression together with the pattern it was
/// compiled from.
pub struct CiPattern {
    source: String,
    re: regex::Regex,
}

impl CiPattern {
    /// The pattern this expression was compiled from.
    pub closed spec fn source(&self) -> Seq<char> {
        self.source@
    }
}

/// Compiles `pattern` case-insensitively with
/// `regex::RegexBuilder::new(pattern).case_insensitive(true).build()`.
/// The contract names the outcome: the error message, or an expression
/// that remembers its pattern.
#[verifier::external_body]
pub(crate) fn compile_ci(pattern: &str) -> (r: Result<CiPattern, String>)
    ensures
        r matches Ok(p) ==> p.source() == pattern@ && ci_regex_error(pattern@) is None,
        r matches Err(e) ==> ci_regex_error(pattern@) == Some(e@),
{
    match regex::RegexBuilder::new(pattern).case_insensitive(true).build() {
        Ok(re) => Ok(CiPattern { source: pattern.to_string(), re }),
        Err(e) => Err(e.to_string()),
    }
}

/// Runs `regex::Regex::find` on `text`. The contract names the match and
/// states a fact the crate documents: a match is a piece of the text.
#[verifier::external_body]
pub(crate) fn find_ci(p: &CiPattern, text: &str) -> (r: Option<String>)
    ensures
        r matches Some(m) ==> ci_regex_match(p.source(), text@) == Some(m@) && contains_seq(text@, m@),
        r is None ==> ci_regex_match(p.source(), text@) is None,
{
    p.re.find(text).map(|m| m.as_str().to_string())
}

/// Compiles `pattern` and searches `text` with it.
pub fn search_ci(pattern: &str, text: &str) -> (r: Result<Option<String>, String>)
    ensures
        match r {
            Ok(Some(m)) => ci_search(pattern@, text@) == Ok::<Option<Seq<char>>, Seq<char>>(Some(m@)),
            Ok(None) => ci_search(pattern@, text@) == Ok::<Option<Seq<char>>, Seq<char>>(None),
            Err(e) => ci_search(pattern@, text@) == Err::<Option<Seq<char>>, Seq<char>>(e@),
        },
{
    match compile_ci(pattern) {
        Ok(p) => Ok(find_ci(&p, text)),
        Err(e) => Err(e),
    }
}

impl CiPattern {
    /// Compiles a pattern case-insensitively; the compiler's message when
    /// it is rejected.
    pub fn new(pattern: &str) -> (r: Result<CiPattern, String>)
        ensures
            r matches Ok(p) ==> p.source() == pattern@ && ci_regex_error(pattern@) is None,
            r matches Err(e) ==> ci_regex_error(pattern@) == Some(e@),
    {
        compile_ci(pattern)
    }

    /// The leftmost match in `text`, if there is one.
    pub fn find(&self, text: &str) -> (r: Option<String>)
        ensures
            r matches Some(m) ==> ci_regex_match(self.source(), text@) == Some(m@) && contains_seq(text@, m@),
            r is None ==> ci_regex_match(self.source(), text@) is None,
    {
        find_ci(self, text)
    }
}

} // verus!

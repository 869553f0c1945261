//! Regular expressions, as the `regex` crate matches them.
use vstd::prelude::*;

verus! {

#[verifier::external_type_specification]
#[verifier::external_body]
pub struct ExRegex(regex::Regex);

#[verifier::external_type_specification]
#[verifier::external_body]
pub struct ExRegexError(regex::Error);

/// Whether `Regex::new` accepts the pattern.
pub uninterp spec fn regex_compiles(pattern: Seq<char>) -> bool;

/// The captures of all successive non-overlapping matches of `pattern` in
/// `haystack`, as `Regex::captures_iter` yields them: for each match, its
/// groups in order (group 0 is the whole match), `None` for a group that
/// did not take part.
pub uninterp spec fn regex_captures_iter(pattern: Seq<char>, haystack: Seq<char>) -> Seq<Seq<Option<Seq<char>>>>;

/// The captures of the first match of `pattern` in `haystack`, as
/// `Regex::captures` returns them; `None` when there is no match.
pub uninterp spec fn regex_captures(pattern: Seq<char>, haystack: Seq<char>) -> Option<Seq<Option<Seq<char>>>>;

/// A regular expression compiled from the pattern that `pattern()` names.
/// Only `compile` makes one, so the two always agree.
pub struct CompiledRegex {
    regex: regex::Regex,
    source: Ghost<Seq<char>>,
}

impl CompiledRegex {
    /// The pattern the expression was compiled from.
    pub closed spec fn pattern(&self) -> Seq<char> {
        self.source@
    }
}

/// Compiles a pattern (`Regex::new`). Claimed: it succeeds exactly when
/// `regex_compiles` holds of the pattern, and a compiled expression carries
/// the pattern it was compiled from. What an error holds is not stated.
#[verifier::external_body]
pub(crate) fn compile(pattern: &str) -> (r: Result<CompiledRegex, regex::Error>)
    ensures
        r is Ok <==> regex_compiles(pattern@),
        r matches Ok(c) ==> c.pattern() == pattern@,
{
    regex::Regex::new(pattern).map(|regex| CompiledRegex { regex, source: Ghost(pattern@) })
}

/// The captures of all matches in `haystack` (`Regex::captures_iter`), each
/// group as its matched text. Claimed: they are `regex_captures_iter` of the
/// pattern and the haystack.
#[verifier::external_body]
pub(crate) fn captures_all(re: &CompiledRegex, haystack: &str) -> (r: Vec<Vec<Option<String>>>)
    ensures
        r.deep_view() == regex_captures_iter(re.pattern(), haystack@),
{
    re.regex.captures_iter(haystack).map(|c| c.iter().map(|m| m.map(|m| m.as_str().to_string())).collect()).collect()
}

/// The captures of the first match in `haystack` (`Regex::captures`), each
/// group as its matched text. Claimed: they are `regex_captures` of the
/// pattern and the haystack.
#[verifier::external_body]
pub(crate) fn captures_first(re: &CompiledRegex, haystack: &str) -> (r: Option<Vec<Option<String>>>)
    ensures
        r.deep_view() == regex_captures(re.pattern(), haystack@),
{
    re.regex.captures(haystack).map(|c| c.iter().map(|m| m.map(|m| m.as_str().to_string())).collect())
}

} // verus!

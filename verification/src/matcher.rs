//! Regular expressions, through the `regex` crate.
//!
//! What a pattern matches is left to the crate: the names below stand for its
//! answers, which depend on the pattern and the haystack alone.

use vstd::prelude::*;

verus! {

#[verifier::external_type_specification]
#[verifier::external_body]
pub struct ExRegex(regex::Regex);

#[verifier::external_type_specification]
#[verifier::external_body]
pub struct ExRegexError(regex::Error);

/// Whether `regex::Regex::new` accepts `pattern` (valid syntax, within the
/// default size limit).
pub uninterp spec fn regex_compiles(pattern: Seq<char>) -> bool;

/// Whether the regex of `pattern` matches somewhere in `haystack`
/// (`regex::Regex::is_match`).
pub uninterp spec fn regex_is_match(pattern: Seq<char>, haystack: Seq<char>) -> bool;

/// The capture groups of the first match of `pattern` in `haystack`, group 0
/// first, each the text it matched where it took part
/// (`regex::Regex::captures`); `None` where there is no match.
pub uninterp spec fn regex_captures(pattern: Seq<char>, haystack: Seq<char>) -> Option<
    Seq<Option<Seq<char>>>,
>;

/// The capture groups of each of the successive non-overlapping matches of
/// `pattern` in `haystack` (`regex::Regex::captures_iter`).
pub uninterp spec fn regex_captures_all(pattern: Seq<char>, haystack: Seq<char>) -> Seq<
    Seq<Option<Seq<char>>>,
>;

/// A compiled regular expression and the pattern it was compiled from.
///
/// Only `compile` makes one, so `re` is always the regex of `source`.
pub struct Pattern {
    source: String,
    re: regex::Regex,
}

impl Pattern {
    /// The pattern this regex was compiled from.
    pub closed spec fn source(&self) -> Seq<char> {
        self.source@
    }
}

/// The texts of capture groups.
pub open spec fn group_views(gs: Seq<Option<String>>) -> Seq<Option<Seq<char>>> {
    gs.map_values(
        |g: Option<String>|
            match g {
                Some(s) => Some(s@),
                None => None,
            },
    )
}

/// The texts of the capture groups of successive matches.
pub open spec fn matches_views(ms: Seq<Vec<Option<String>>>) -> Seq<Seq<Option<Seq<char>>>> {
    ms.map_values(|m: Vec<Option<String>>| group_views(m@))
}

/// `regex::Regex::new`: compiles `pattern`; it succeeds exactly when the
/// crate accepts the pattern, and the result remembers the pattern.
#[verifier::external_body]
pub(crate) fn compile(pattern: &str) -> (r: Result<Pattern, regex::Error>)
    ensures
        r is Ok <==> regex_compiles(pattern@),
        r matches Ok(p) ==> p.source() == pattern@,
{
    match regex::Regex::new(pattern) {
        Ok(re) => Ok(Pattern { source: pattern.to_owned(), re }),
        Err(e) => Err(e),
    }
}

/// `regex::Regex::is_match`: whether the regex matches somewhere in
/// `haystack`, as the crate decides.
#[verifier::external_body]
pub(crate) fn is_match(p: &Pattern, haystack: &str) -> (b: bool)
    ensures
        b == regex_is_match(p.source(), haystack@),
{
    p.re.is_match(haystack)
}

/// `regex::Regex::captures`: the groups of the first match, each as the text
/// it matched, as the crate finds them.
#[verifier::external_body]
pub(crate) fn captures(p: &Pattern, haystack: &str) -> (r: Option<Vec<Option<String>>>)
    ensures
        match r {
            Some(gs) => regex_captures(p.source(), haystack@) == Some(group_views(gs@)),
            None => regex_captures(p.source(), haystack@) is None,
        },
{
    match p.re.captures(haystack) {
        Some(caps) => Some(caps.iter().map(|m| m.map(|m| m.as_str().to_owned())).collect()),
        None => None,
    }
}

/// `regex::Regex::captures_iter`: the groups of every successive
/// non-overlapping match, each as the text it matched, as the crate finds them.
#[verifier::external_body]
pub(crate) fn captures_all(p: &Pattern, haystack: &str) -> (r: Vec<Vec<Option<String>>>)
    ensures
        matches_views(r@) == regex_captures_all(p.source(), haystack@),
{
    p.re.captures_iter(haystack).map(
        |caps| caps.iter().map(|m| m.map(|m| m.as_str().to_owned())).collect(),
    ).collect()
}

} // verus!

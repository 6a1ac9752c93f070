//! Regular-expression matching, done by the `regex` crate.
//!
//! The library keeps its patterns as string constants and hands them, with
//! the text to search, to the two calls below. What the engine returns is
//! named, not restated: the extractors and the masker are verified over
//! these names.

use vstd::prelude::*;

verus! {

/// Text of capture group 1 of the leftmost-first match of `pattern` in `text`,
/// as `regex::Regex::new(pattern)` followed by `Regex::captures(text)` and
/// `Captures::get(1)` compute it; `None` when the pattern does not compile,
/// when nothing matches, or when group 1 took no part in the match.
pub uninterp spec fn regex_group1(pattern: Seq<char>, text: Seq<char>) -> Option<Seq<char>>;

/// `text` with every non-overlapping match of `pattern` replaced by
/// `replacement`, as `Regex::replace_all` computes it; `None` when the
/// pattern does not compile.
pub uninterp spec fn regex_replace_all(
    pattern: Seq<char>,
    text: Seq<char>,
    replacement: Seq<char>,
) -> Option<Seq<char>>;

/// Calls `regex::Regex::new` and `Regex::captures`, and returns group 1.
/// The contract only ties the result to `regex_group1`; what the engine
/// matches is not restated.
#[verifier::external_body]
pub(crate) fn capture_group1(pattern: &str, text: &str) -> (r: Option<String>)
    ensures
        (match r {
            Some(s) => regex_group1(pattern@, text@) == Some(s@),
            None => regex_group1(pattern@, text@) is None,
        }),
{
    match regex::Regex::new(pattern) {
        Ok(re) => match re.captures(text) {
            Some(caps) => match caps.get(1) {
                Some(m) => Some(m.as_str().to_string()),
                None => None,
            },
            None => None,
        },
        Err(_) => None,
    }
}

/// Calls `regex::Regex::new` and `Regex::replace_all`. The contract only
/// ties the result to `regex_replace_all`.
#[verifier::external_body]
pub(crate) fn replace_all(pattern: &str, text: &str, replacement: &str) -> (r: Option<String>)
    ensures
        (match r {
            Some(s) => regex_replace_all(pattern@, text@, replacement@) == Some(s@),
            None => regex_replace_all(pattern@, text@, replacement@) is None,
        }),
{
    match regex::Regex::new(pattern) {
        Ok(re) => Some(re.replace_all(text, replacement).into_owned()),
        Err(_) => None,
    }
}

} // verus!

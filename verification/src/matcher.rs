//! The regular expression engine that looks for tokens.

use vstd::prelude::*;

verus! {

/// The error with which the `regex` crate turns down a pattern.
#[verifier::external_type_specification]
#[verifier::external_body]
pub struct ExRegexError(regex::Error);

/// What the `regex` crate finds of `pattern` in `haystack`: the byte offsets
/// at which its successive matches start, or `None` where it does not accept
/// the pattern.
pub uninterp spec fn match_starts(pattern: Seq<char>, haystack: Seq<char>) -> Option<Seq<usize>>;

/// Compiles `pattern` with `regex::Regex::new`, runs `Regex::find_iter` on
/// `haystack` and takes `Match::start` of every match. Nothing is claimed of
/// the offsets but that they are the ones the engine gives for these two
/// strings; the error is the one that `Regex::new` returned.
#[verifier::external_body]
pub(crate) fn find_starts(pattern: &str, haystack: &str) -> (r: Result<Vec<usize>, regex::Error>)
    ensures
        match r {
            Ok(starts) => match_starts(pattern@, haystack@) == Some(starts@),
            Err(_) => match_starts(pattern@, haystack@) is None,
        },
{
    let re = regex::Regex::new(pattern)?;
    Ok(re.find_iter(haystack).map(|m| m.start()).collect())
}

} // verus!

//! Regular-expression matching, done by the `regex` crate.
use vstd::prelude::*;

verus! {

/// The text of capture group 1 in the first match of the regular expression `pattern` in
/// `text`, as the `regex` crate finds it; `None` when the pattern does not compile, does not
/// match, or group 1 takes no part in the match.
pub uninterp spec fn regex_first_group(pattern: Seq<char>, text: Seq<char>) -> Option<Seq<char>>;

/// Compiles `pattern` with `regex::Regex::new`, finds the first match in `text` with
/// `Regex::captures`, and returns the text of its capture group 1. The contract claims only that
/// the result is a function of the pattern and the text, named `regex_first_group`.
#[verifier::external_body]
pub(crate) fn first_capture(pattern: &str, text: &str) -> (res: Option<String>)
    ensures
        res matches Some(s) ==> regex_first_group(pattern@, text@) == Some(s@),
        res is None ==> regex_first_group(pattern@, text@) is None,
{
    let re = match regex::Regex::new(pattern) {
        Ok(re) => re,
        Err(_) => return None,
    };
    match re.captures(text) {
        Some(caps) => match caps.get(1) {
            Some(m) => Some(m.as_str().to_owned()),
            None => None,
        },
        None => None,
    }
}

} // verus!
